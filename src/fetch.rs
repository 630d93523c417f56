//! The `Fetch` API: for each requested topic and partition, the record
//! batches of the partition's log, re-encoded.
use vstd::prelude::*;
use crate::wire::{
    CodecError, TextData, get_i8, get_i32, get_i64, get_uuid, get_compact_len, skip_tag_buffer,
    parse_i8, parse_i32, parse_i64, parse_uuid, parse_compact_len, parse_tag_buffer, i16_bytes,
    i32_bytes, i64_bytes, uuid_bytes, uvarint_bytes, empty_tag_buffer, concat_map, put_i16,
    put_i32, put_i64, put_uuid, put_uvarint, put_bytes,
};
use crate::common::ErrorCode;
use crate::record::{PartitionRecord, PartitionRecordModel, TopicRecord, TopicRecordModel};
use crate::metadata::{MetadataFile, log_records, topics_in, partitions_in, log_bytes};
use crate::record_batch::RecordBatchModel;
use crate::request::RequestHeader;
use crate::response::{Response, response_bytes};

verus! {

/// What a requested partition holds.
pub struct FetchPartitionModel {
    pub partition: i32,
    pub current_leader_epoch: i32,
    pub fetch_offset: i64,
    pub last_fetched_epoch: i64,
    pub log_start_offset: i64,
    pub partition_max_bytes: i32,
}

/// The first version of `Fetch` whose partitions carry `last_fetched_epoch`.
pub const LAST_FETCHED_EPOCH_VERSION: i16 = 12;

/// Reads a requested partition: `partition:INT32, current_leader_epoch:INT32,
/// fetch_offset:INT64`, `last_fetched_epoch:INT64` from version 12 on (else
/// -1), `log_start_offset:INT64, partition_max_bytes:INT32`, a tag buffer.
#[verifier::opaque]
pub open spec fn parse_fetch_partition(s: Seq<u8>, version: i16) -> Result<(FetchPartitionModel, nat), CodecError> {
    match parse_i32(s) {
        Err(e) => Err(e),
        Ok((partition, n0)) => {
            let s0 = s.skip(n0 as int);
            match parse_i32(s0) {
                Err(e) => Err(e),
                Ok((current_leader_epoch, n1)) => {
                    let s1 = s0.skip(n1 as int);
                    match parse_i64(s1) {
                        Err(e) => Err(e),
                        Ok((fetch_offset, n2)) => {
                            let s2 = s1.skip(n2 as int);
                            let epoch = if version >= LAST_FETCHED_EPOCH_VERSION { parse_i64(s2) } else { Ok((-1i64, 0nat)) };
                            match epoch {
                                Err(e) => Err(e),
                                Ok((last_fetched_epoch, n3)) => {
                                    let s3 = s2.skip(n3 as int);
                                    match parse_i64(s3) {
                                        Err(e) => Err(e),
                                        Ok((log_start_offset, n4)) => {
                                            let s4 = s3.skip(n4 as int);
                                            match parse_i32(s4) {
                                                Err(e) => Err(e),
                                                Ok((partition_max_bytes, n5)) => {
                                                    let s5 = s4.skip(n5 as int);
                                                    match parse_tag_buffer(s5) {
                                                        Err(e) => Err(e),
                                                        Ok((_, n6)) => Ok((
                                                            FetchPartitionModel {
                                                                partition,
                                                                current_leader_epoch,
                                                                fetch_offset,
                                                                last_fetched_epoch,
                                                                log_start_offset,
                                                                partition_max_bytes,
                                                            },
                                                            n0 + n1 + n2 + n3 + n4 + n5 + n6,
                                                        )),
                                                    }
                                                },
                                            }
                                        },
                                    }
                                },
                            }
                        },
                    }
                },
            }
        },
    }
}

/// A requested partition.
#[derive(Debug, Clone, Copy)]
pub struct FetchTopicRequestPartition {
    pub partition_index: i32,
    pub current_leader_epoch: i32,
    pub fetch_offset: i64,
    pub last_fetched_epoch: i64,
    pub log_start_offset: i64,
    pub partition_max_bytes: i32,
}

impl View for FetchTopicRequestPartition {
    type V = FetchPartitionModel;

    open spec fn view(&self) -> FetchPartitionModel {
        FetchPartitionModel {
            partition: self.partition_index,
            current_leader_epoch: self.current_leader_epoch,
            fetch_offset: self.fetch_offset,
            last_fetched_epoch: self.last_fetched_epoch,
            log_start_offset: self.log_start_offset,
            partition_max_bytes: self.partition_max_bytes,
        }
    }
}

impl FetchTopicRequestPartition {
    /// Reads a requested partition of a request of `version` at `pos`.
    #[verifier::rlimit(40)]
    pub fn deserialize(buf: &[u8], pos: usize, version: i16) -> (r: Result<(FetchTopicRequestPartition, usize), CodecError>)
        requires
            pos <= buf@.len(),
        ensures
            match r {
                Ok((v, p)) => pos < p <= buf@.len() && parse_fetch_partition(buf@.skip(pos as int), version) == Ok::<(FetchPartitionModel, nat), CodecError>((v@, (p - pos) as nat)),
                Err(e) => parse_fetch_partition(buf@.skip(pos as int), version) == Err::<(FetchPartitionModel, nat), CodecError>(e),
            },
    {
        reveal(parse_fetch_partition);
        let (partition_index, p0) = get_i32(buf, pos)?;
        assert(buf@.skip(p0 as int) =~= buf@.skip(pos as int).skip(p0 - pos));
        let (current_leader_epoch, p1) = get_i32(buf, p0)?;
        assert(buf@.skip(p1 as int) =~= buf@.skip(p0 as int).skip(p1 - p0));
        let (fetch_offset, p2) = get_i64(buf, p1)?;
        assert(buf@.skip(p2 as int) =~= buf@.skip(p1 as int).skip(p2 - p1));
        let (last_fetched_epoch, p3) = if version >= LAST_FETCHED_EPOCH_VERSION {
            get_i64(buf, p2)?
        } else {
            (-1i64, p2)
        };
        assert(buf@.skip(p3 as int) =~= buf@.skip(p2 as int).skip(p3 - p2));
        let (log_start_offset, p4) = get_i64(buf, p3)?;
        assert(buf@.skip(p4 as int) =~= buf@.skip(p3 as int).skip(p4 - p3));
        let (partition_max_bytes, p5) = get_i32(buf, p4)?;
        assert(buf@.skip(p5 as int) =~= buf@.skip(p4 as int).skip(p5 - p4));
        let p6 = skip_tag_buffer(buf, p5)?;
        let v = FetchTopicRequestPartition {
            partition_index,
            current_leader_epoch,
            fetch_offset,
            last_fetched_epoch,
            log_start_offset,
            partition_max_bytes,
        };
        Ok((v, p6))
    }
}

/// Reads `k` requested partitions.
pub open spec fn parse_fetch_partitions(s: Seq<u8>, version: i16, k: nat) -> Result<(Seq<FetchPartitionModel>, nat), CodecError>
    decreases k,
{
    if k == 0 {
        Ok((Seq::empty(), 0))
    } else {
        match parse_fetch_partition(s, version) {
            Err(e) => Err(e),
            Ok((t, n)) => match parse_fetch_partitions(s.skip(n as int), version, (k - 1) as nat) {
                Err(e) => Err(e),
                Ok((ts, m)) => Ok((seq![t] + ts, n + m)),
            },
        }
    }
}

pub open spec fn fetch_partitions_view(v: Seq<FetchTopicRequestPartition>) -> Seq<FetchPartitionModel> {
    v.map_values(|t: FetchTopicRequestPartition| t@)
}

/// Reads `k` requested partitions at `pos`.
fn read_fetch_partitions(buf: &[u8], pos: usize, version: i16, k: u64) -> (r: Result<(Vec<FetchTopicRequestPartition>, usize), CodecError>)
    requires
        pos <= buf@.len(),
    ensures
        match r {
            Ok((v, p)) => pos <= p <= buf@.len() && parse_fetch_partitions(buf@.skip(pos as int), version, k as nat) == Ok::<(Seq<FetchPartitionModel>, nat), CodecError>((fetch_partitions_view(v@), (p - pos) as nat)),
            Err(e) => parse_fetch_partitions(buf@.skip(pos as int), version, k as nat) == Err::<(Seq<FetchPartitionModel>, nat), CodecError>(e),
        },
{
    let mut v: Vec<FetchTopicRequestPartition> = Vec::new();
    let mut p = pos;
    let mut i: u64 = 0;
    while i < k
        invariant
            pos <= p <= buf.len(),
            i <= k,
            parse_fetch_partitions(buf@.skip(pos as int), version, k as nat) == match parse_fetch_partitions(buf@.skip(p as int), version, (k - i) as nat) {
                Err(e) => Err(e),
                Ok((ts, m)) => Ok::<(Seq<FetchPartitionModel>, nat), CodecError>((fetch_partitions_view(v@) + ts, ((p - pos) + m) as nat)),
            },
        decreases k - i,
    {
        let ghost s = buf@.skip(p as int);
        let (item, q) = match FetchTopicRequestPartition::deserialize(buf, p, version) {
            Ok(x) => x,
            Err(e) => {
                return Err(e);
            },
        };
        assert(buf@.skip(q as int) =~= s.skip(q - p));
        let ghost before = fetch_partitions_view(v@);
        v.push(item);
        assert(fetch_partitions_view(v@) =~= before + seq![item@]);
        assert forall|ts: Seq<FetchPartitionModel>| #![auto] before + (seq![item@] + ts) =~= fetch_partitions_view(v@) + ts by {}
        p = q;
        i = i + 1;
    }
    assert(fetch_partitions_view(v@) + Seq::<FetchPartitionModel>::empty() =~= fetch_partitions_view(v@));
    Ok((v, p))
}

/// What a requested topic holds.
pub struct FetchTopicModel {
    pub topic_id: i128,
    pub partitions: Option<Seq<FetchPartitionModel>>,
}

/// Reads a requested topic: `topic_id:UUID`, its partitions as a compact
/// array, a tag buffer.
pub open spec fn parse_fetch_topic(s: Seq<u8>, version: i16) -> Result<(FetchTopicModel, nat), CodecError> {
    match parse_uuid(s) {
        Err(e) => Err(e),
        Ok((topic_id, n0)) => {
            let s0 = s.skip(n0 as int);
            match parse_compact_len(s0) {
                Err(e) => Err(e),
                Ok((count, n1)) => {
                    let s1 = s0.skip(n1 as int);
                    let items = match count {
                        None => Ok((None, 0nat)),
                        Some(k) => match parse_fetch_partitions(s1, version, k) {
                            Err(e) => Err(e),
                            Ok((ps, m)) => Ok((Some(ps), m)),
                        },
                    };
                    match items {
                        Err(e) => Err(e),
                        Ok((partitions, n2)) => match parse_tag_buffer(s1.skip(n2 as int)) {
                            Err(e) => Err(e),
                            Ok((_, n3)) => Ok((FetchTopicModel { topic_id, partitions }, n0 + n1 + n2 + n3)),
                        },
                    }
                },
            }
        },
    }
}

/// A requested topic.
#[derive(Debug)]
pub struct FetchTopic {
    pub topic_id: i128,
    pub partitions: Option<Vec<FetchTopicRequestPartition>>,
}

impl View for FetchTopic {
    type V = FetchTopicModel;

    open spec fn view(&self) -> FetchTopicModel {
        FetchTopicModel {
            topic_id: self.topic_id,
            partitions: match self.partitions {
                Some(v) => Some(fetch_partitions_view(v@)),
                None => None,
            },
        }
    }
}

impl FetchTopic {
    /// Reads a requested topic of a request of `version` at `pos`.
    pub fn deserialize(buf: &[u8], pos: usize, version: i16) -> (r: Result<(FetchTopic, usize), CodecError>)
        requires
            pos <= buf@.len(),
        ensures
            match r {
                Ok((v, p)) => pos < p <= buf@.len() && parse_fetch_topic(buf@.skip(pos as int), version) == Ok::<(FetchTopicModel, nat), CodecError>((v@, (p - pos) as nat)),
                Err(e) => parse_fetch_topic(buf@.skip(pos as int), version) == Err::<(FetchTopicModel, nat), CodecError>(e),
            },
    {
        let (topic_id, p0) = get_uuid(buf, pos)?;
        assert(buf@.skip(p0 as int) =~= buf@.skip(pos as int).skip(p0 - pos));
        let (count, p1) = get_compact_len(buf, p0)?;
        assert(buf@.skip(p1 as int) =~= buf@.skip(p0 as int).skip(p1 - p0));
        let (partitions, p2) = match count {
            None => (None, p1),
            Some(k) => {
                let (v, p) = read_fetch_partitions(buf, p1, version, k)?;
                (Some(v), p)
            },
        };
        assert(buf@.skip(p2 as int) =~= buf@.skip(p1 as int).skip(p2 - p1));
        let p3 = skip_tag_buffer(buf, p2)?;
        Ok((FetchTopic { topic_id, partitions }, p3))
    }
}

/// Reads `k` requested topics.
pub open spec fn parse_fetch_topics(s: Seq<u8>, version: i16, k: nat) -> Result<(Seq<FetchTopicModel>, nat), CodecError>
    decreases k,
{
    if k == 0 {
        Ok((Seq::empty(), 0))
    } else {
        match parse_fetch_topic(s, version) {
            Err(e) => Err(e),
            Ok((t, n)) => match parse_fetch_topics(s.skip(n as int), version, (k - 1) as nat) {
                Err(e) => Err(e),
                Ok((ts, m)) => Ok((seq![t] + ts, n + m)),
            },
        }
    }
}

pub open spec fn fetch_topics_view(v: Seq<FetchTopic>) -> Seq<FetchTopicModel> {
    v.map_values(|t: FetchTopic| t@)
}

/// Reads `k` requested topics at `pos`.
fn read_fetch_topics(buf: &[u8], pos: usize, version: i16, k: u64) -> (r: Result<(Vec<FetchTopic>, usize), CodecError>)
    requires
        pos <= buf@.len(),
    ensures
        match r {
            Ok((v, p)) => pos <= p <= buf@.len() && parse_fetch_topics(buf@.skip(pos as int), version, k as nat) == Ok::<(Seq<FetchTopicModel>, nat), CodecError>((fetch_topics_view(v@), (p - pos) as nat)),
            Err(e) => parse_fetch_topics(buf@.skip(pos as int), version, k as nat) == Err::<(Seq<FetchTopicModel>, nat), CodecError>(e),
        },
{
    let mut v: Vec<FetchTopic> = Vec::new();
    let mut p = pos;
    let mut i: u64 = 0;
    while i < k
        invariant
            pos <= p <= buf.len(),
            i <= k,
            parse_fetch_topics(buf@.skip(pos as int), version, k as nat) == match parse_fetch_topics(buf@.skip(p as int), version, (k - i) as nat) {
                Err(e) => Err(e),
                Ok((ts, m)) => Ok::<(Seq<FetchTopicModel>, nat), CodecError>((fetch_topics_view(v@) + ts, ((p - pos) + m) as nat)),
            },
        decreases k - i,
    {
        let ghost s = buf@.skip(p as int);
        let (item, q) = match FetchTopic::deserialize(buf, p, version) {
            Ok(x) => x,
            Err(e) => {
                return Err(e);
            },
        };
        assert(buf@.skip(q as int) =~= s.skip(q - p));
        let ghost before = fetch_topics_view(v@);
        let ghost iv = item@;
        v.push(item);
        assert(fetch_topics_view(v@) =~= before + seq![iv]);
        assert forall|ts: Seq<FetchTopicModel>| #![auto] before + (seq![iv] + ts) =~= fetch_topics_view(v@) + ts by {}
        p = q;
        i = i + 1;
    }
    assert(fetch_topics_view(v@) + Seq::<FetchTopicModel>::empty() =~= fetch_topics_view(v@));
    Ok((v, p))
}

/// What a request holds; fields after the topics are not read.
pub struct FetchRequestModel {
    pub max_wait_ms: i32,
    pub min_bytes: i32,
    pub max_bytes: i32,
    pub isolation_level: i8,
    pub session_id: i32,
    pub session_epoch: i32,
    pub topics: Option<Seq<FetchTopicModel>>,
}

/// Reads a request body: `max_wait_ms:INT32, min_bytes:INT32,
/// max_bytes:INT32, isolation_level:INT8, session_id:INT32,
/// session_epoch:INT32`, the topics as a compact array.
#[verifier::opaque]
pub open spec fn parse_fetch_request(s: Seq<u8>, version: i16) -> Result<(FetchRequestModel, nat), CodecError> {
    match parse_i32(s) {
        Err(e) => Err(e),
        Ok((max_wait_ms, n0)) => {
            let s0 = s.skip(n0 as int);
            match parse_i32(s0) {
                Err(e) => Err(e),
                Ok((min_bytes, n1)) => {
                    let s1 = s0.skip(n1 as int);
                    match parse_i32(s1) {
                        Err(e) => Err(e),
                        Ok((max_bytes, n2)) => {
                            let s2 = s1.skip(n2 as int);
                            match parse_i8(s2) {
                                Err(e) => Err(e),
                                Ok((isolation_level, n3)) => {
                                    let s3 = s2.skip(n3 as int);
                                    match parse_i32(s3) {
                                        Err(e) => Err(e),
                                        Ok((session_id, n4)) => {
                                            let s4 = s3.skip(n4 as int);
                                            match parse_i32(s4) {
                                                Err(e) => Err(e),
                                                Ok((session_epoch, n5)) => {
                                                    let s5 = s4.skip(n5 as int);
                                                    match parse_compact_len(s5) {
                                                        Err(e) => Err(e),
                                                        Ok((count, n6)) => {
                                                            let s6 = s5.skip(n6 as int);
                                                            let items = match count {
                                                                None => Ok((None, 0nat)),
                                                                Some(k) => match parse_fetch_topics(s6, version, k) {
                                                                    Err(e) => Err(e),
                                                                    Ok((ts, m)) => Ok((Some(ts), m)),
                                                                },
                                                            };
                                                            match items {
                                                                Err(e) => Err(e),
                                                                Ok((topics, n7)) => Ok((
                                                                    FetchRequestModel {
                                                                        max_wait_ms,
                                                                        min_bytes,
                                                                        max_bytes,
                                                                        isolation_level,
                                                                        session_id,
                                                                        session_epoch,
                                                                        topics,
                                                                    },
                                                                    n0 + n1 + n2 + n3 + n4 + n5 + n6 + n7,
                                                                )),
                                                            }
                                                        },
                                                    }
                                                },
                                            }
                                        },
                                    }
                                },
                            }
                        },
                    }
                },
            }
        },
    }
}

/// A `Fetch` request body.
#[derive(Debug)]
pub struct FetchRequest {
    pub max_wait_ms: i32,
    pub min_bytes: i32,
    pub max_bytes: i32,
    pub isolation_level: i8,
    pub session_id: i32,
    pub session_epoch: i32,
    pub topics: Option<Vec<FetchTopic>>,
}

impl View for FetchRequest {
    type V = FetchRequestModel;

    open spec fn view(&self) -> FetchRequestModel {
        FetchRequestModel {
            max_wait_ms: self.max_wait_ms,
            min_bytes: self.min_bytes,
            max_bytes: self.max_bytes,
            isolation_level: self.isolation_level,
            session_id: self.session_id,
            session_epoch: self.session_epoch,
            topics: match self.topics {
                Some(v) => Some(fetch_topics_view(v@)),
                None => None,
            },
        }
    }
}

impl FetchRequest {
    /// Reads a request body of `version` at `pos`.
    #[verifier::rlimit(40)]
    pub fn deserialize(buf: &[u8], pos: usize, version: i16) -> (r: Result<(FetchRequest, usize), CodecError>)
        requires
            pos <= buf@.len(),
        ensures
            match r {
                Ok((v, p)) => pos < p <= buf@.len() && parse_fetch_request(buf@.skip(pos as int), version) == Ok::<(FetchRequestModel, nat), CodecError>((v@, (p - pos) as nat)),
                Err(e) => parse_fetch_request(buf@.skip(pos as int), version) == Err::<(FetchRequestModel, nat), CodecError>(e),
            },
    {
        reveal(parse_fetch_request);
        let (max_wait_ms, p0) = get_i32(buf, pos)?;
        assert(buf@.skip(p0 as int) =~= buf@.skip(pos as int).skip(p0 - pos));
        let (min_bytes, p1) = get_i32(buf, p0)?;
        assert(buf@.skip(p1 as int) =~= buf@.skip(p0 as int).skip(p1 - p0));
        let (max_bytes, p2) = get_i32(buf, p1)?;
        assert(buf@.skip(p2 as int) =~= buf@.skip(p1 as int).skip(p2 - p1));
        let (isolation_level, p3) = get_i8(buf, p2)?;
        assert(buf@.skip(p3 as int) =~= buf@.skip(p2 as int).skip(p3 - p2));
        let (session_id, p4) = get_i32(buf, p3)?;
        assert(buf@.skip(p4 as int) =~= buf@.skip(p3 as int).skip(p4 - p3));
        let (session_epoch, p5) = get_i32(buf, p4)?;
        assert(buf@.skip(p5 as int) =~= buf@.skip(p4 as int).skip(p5 - p4));
        let (count, p6) = get_compact_len(buf, p5)?;
        assert(buf@.skip(p6 as int) =~= buf@.skip(p5 as int).skip(p6 - p5));
        let (topics, p7) = match count {
            None => (None, p6),
            Some(k) => {
                let (v, p) = read_fetch_topics(buf, p6, version, k)?;
                (Some(v), p)
            },
        };
        let req = FetchRequest {
            max_wait_ms,
            min_bytes,
            max_bytes,
            isolation_level,
            session_id,
            session_epoch,
            topics,
        };
        Ok((req, p7))
    }
}


/// The log of one partition, as the caller read it: `None` where the file
/// is missing or cannot be decoded.
#[derive(Debug)]
pub struct PartitionLog {
    pub topic_name: TextData,
    pub partition: i32,
    pub log: Option<MetadataFile>,
}

pub struct PartitionLogModel {
    pub topic_name: Option<Seq<char>>,
    pub partition: i32,
    pub log: Option<Seq<RecordBatchModel>>,
}

impl View for PartitionLog {
    type V = PartitionLogModel;

    open spec fn view(&self) -> PartitionLogModel {
        PartitionLogModel {
            topic_name: self.topic_name@,
            partition: self.partition,
            log: match self.log {
                Some(f) => Some(f@),
                None => None,
            },
        }
    }
}

pub open spec fn logs_view(v: Seq<PartitionLog>) -> Seq<PartitionLogModel> {
    v.map_values(|l: PartitionLog| l@)
}

/// The record bytes of partition `partition` of the topic `name`: its log's
/// batches re-encoded, from the first entry of `logs` for it; none where
/// there is no such entry or its log is missing.
pub open spec fn log_for(logs: Seq<PartitionLogModel>, name: Option<Seq<char>>, partition: i32) -> Seq<u8>
    decreases logs.len(),
{
    if logs.len() == 0 {
        Seq::empty()
    } else if logs[0].topic_name == name && logs[0].partition == partition {
        match logs[0].log {
            Some(bs) => log_bytes(bs),
            None => Seq::empty(),
        }
    } else {
        log_for(logs.drop_first(), name, partition)
    }
}

/// The record bytes of a partition, from the logs the caller read.
fn partition_records(logs: &Vec<PartitionLog>, name: &TextData, partition: i32) -> (r: Vec<u8>)
    ensures
        r@ == log_for(logs_view(logs@), name@, partition),
{
    let ghost ls = logs_view(logs@);
    let mut i: usize = 0;
    assert(ls.skip(0) =~= ls);
    while i < logs.len() && !(logs[i].partition == partition && logs[i].topic_name.same(name))
        invariant
            i <= logs@.len(),
            ls == logs_view(logs@),
            log_for(ls, name@, partition) == log_for(ls.skip(i as int), name@, partition),
        decreases logs@.len() - i,
    {
        assert(ls.skip(i as int).drop_first() =~= ls.skip(i + 1));
        i = i + 1;
    }
    let mut out: Vec<u8> = Vec::new();
    if i < logs.len() {
        assert(ls.skip(i as int)[0] == logs@[i as int]@);
        match &logs[i].log {
            Some(f) => {
                f.serialize(&mut out);
                assert(out@ =~= log_bytes(f@));
            },
            None => {},
        }
    }
    assert(out@ =~= log_for(ls.skip(i as int), name@, partition));
    out
}

/// One partition of a topic in a response.
#[derive(Debug)]
pub struct FetchTopicPartition {
    pub partition_index: i32,
    pub error_code: ErrorCode,
    pub high_watermark: i64,
    pub last_stable_offset: i64,
    pub log_start_offset: i64,
    pub aborted_transactions: Vec<i32>,
    pub preferred_read_replica: i32,
    pub records: Vec<u8>,
}

/// `partition_index:INT32, error_code:INT16, high_watermark:INT64,
/// last_stable_offset:INT64, log_start_offset:INT64`, the aborted
/// transactions as a compact array, `preferred_read_replica:INT32`, the
/// records prefixed by their length plus one as an unsigned varint, a tag
/// buffer.
pub open spec fn fetch_partition_bytes(p: FetchTopicPartition) -> Seq<u8> {
    i32_bytes(p.partition_index) + i16_bytes(p.error_code.spec_code()) + i64_bytes(p.high_watermark)
        + i64_bytes(p.last_stable_offset) + i64_bytes(p.log_start_offset)
        + uvarint_bytes(p.aborted_transactions@.len() + 1)
        + concat_map(p.aborted_transactions@, |x: i32| i32_bytes(x)) + i32_bytes(p.preferred_read_replica)
        + uvarint_bytes(p.records@.len() + 1) + p.records@ + empty_tag_buffer()
}

/// The reply entry of a partition: its index, an error code, zero offsets,
/// no aborted transactions, no preferred replica, and `records`.
pub open spec fn partition_reply(index: i32, error_code: ErrorCode, records: Seq<u8>) -> Seq<u8> {
    i32_bytes(index) + i16_bytes(error_code.spec_code()) + i64_bytes(0) + i64_bytes(0) + i64_bytes(0)
        + uvarint_bytes(1) + i32_bytes(0) + uvarint_bytes(records.len() + 1) + records
        + empty_tag_buffer()
}

impl FetchTopicPartition {
    /// The entry of a partition with no offsets tracked.
    pub fn new(partition_index: i32, error_code: ErrorCode, records: Vec<u8>) -> (r: FetchTopicPartition)
        ensures
            fetch_partition_bytes(r) == partition_reply(partition_index, error_code, records@),
    {
        let r = FetchTopicPartition {
            partition_index,
            error_code,
            high_watermark: 0,
            last_stable_offset: 0,
            log_start_offset: 0,
            aborted_transactions: Vec::new(),
            preferred_read_replica: 0,
            records,
        };
        assert(r.aborted_transactions@ =~= Seq::<i32>::empty());
        r
    }

    pub fn serialize(&self, out: &mut Vec<u8>)
        ensures
            final(out)@ == old(out)@ + fetch_partition_bytes(*self),
    {
        put_i32(out, self.partition_index);
        put_i16(out, self.error_code.code());
        put_i64(out, self.high_watermark);
        put_i64(out, self.last_stable_offset);
        put_i64(out, self.log_start_offset);
        put_uvarint(out, self.aborted_transactions.len() as u128 + 1);
        let ghost start = out@;
        let mut i: usize = 0;
        while i < self.aborted_transactions.len()
            invariant
                i <= self.aborted_transactions@.len(),
                out@ == start + concat_map(self.aborted_transactions@.take(i as int), |x: i32| i32_bytes(x)),
            decreases self.aborted_transactions@.len() - i,
        {
            put_i32(out, self.aborted_transactions[i]);
            assert(self.aborted_transactions@.take(i + 1).drop_last() =~= self.aborted_transactions@.take(i as int));
            i = i + 1;
            assert(out@ =~= start + concat_map(self.aborted_transactions@.take(i as int), |x: i32| i32_bytes(x)));
        }
        assert(self.aborted_transactions@.take(i as int) =~= self.aborted_transactions@);
        put_i32(out, self.preferred_read_replica);
        put_uvarint(out, self.records.len() as u128 + 1);
        put_bytes(out, self.records.as_slice());
        out.push(0u8);
        assert(final(out)@ =~= old(out)@ + fetch_partition_bytes(*self));
    }
}

/// One topic in a response.
#[derive(Debug)]
pub struct FetchTopicResponse {
    pub topic_id: i128,
    pub partitions: Vec<FetchTopicPartition>,
}

pub open spec fn fetch_topic_bytes(t: FetchTopicResponse) -> Seq<u8> {
    uuid_bytes(t.topic_id) + uvarint_bytes(t.partitions@.len() + 1)
        + concat_map(t.partitions@, |p: FetchTopicPartition| fetch_partition_bytes(p)) + empty_tag_buffer()
}

impl FetchTopicResponse {
    pub fn serialize(&self, out: &mut Vec<u8>)
        ensures
            final(out)@ == old(out)@ + fetch_topic_bytes(*self),
    {
        put_uuid(out, self.topic_id);
        put_uvarint(out, self.partitions.len() as u128 + 1);
        let ghost start = out@;
        let mut i: usize = 0;
        while i < self.partitions.len()
            invariant
                i <= self.partitions@.len(),
                out@ == start + concat_map(self.partitions@.take(i as int), |p: FetchTopicPartition| fetch_partition_bytes(p)),
            decreases self.partitions@.len() - i,
        {
            self.partitions[i].serialize(out);
            assert(self.partitions@.take(i + 1).drop_last() =~= self.partitions@.take(i as int));
            i = i + 1;
            assert(out@ =~= start + concat_map(self.partitions@.take(i as int), |p: FetchTopicPartition| fetch_partition_bytes(p)));
        }
        assert(self.partitions@.take(i as int) =~= self.partitions@);
        out.push(0u8);
        assert(final(out)@ =~= old(out)@ + fetch_topic_bytes(*self));
    }
}

/// The body of a response.
#[derive(Debug)]
pub struct FetchResponseBody {
    pub error_code: ErrorCode,
    pub session_id: i32,
    pub responses: Vec<FetchTopicResponse>,
}

/// `throttle_time_ms:INT32` of zero, `error_code:INT16, session_id:INT32`,
/// the topics as a compact array, a tag buffer.
pub open spec fn fetch_response_bytes(b: FetchResponseBody) -> Seq<u8> {
    i32_bytes(0) + i16_bytes(b.error_code.spec_code()) + i32_bytes(b.session_id)
        + uvarint_bytes(b.responses@.len() + 1)
        + concat_map(b.responses@, |t: FetchTopicResponse| fetch_topic_bytes(t)) + empty_tag_buffer()
}

impl FetchResponseBody {
    pub fn serialize(&self, out: &mut Vec<u8>)
        ensures
            final(out)@ == old(out)@ + fetch_response_bytes(*self),
    {
        put_i32(out, 0);
        put_i16(out, self.error_code.code());
        put_i32(out, self.session_id);
        put_uvarint(out, self.responses.len() as u128 + 1);
        let ghost start = out@;
        let mut i: usize = 0;
        while i < self.responses.len()
            invariant
                i <= self.responses@.len(),
                out@ == start + concat_map(self.responses@.take(i as int), |t: FetchTopicResponse| fetch_topic_bytes(t)),
            decreases self.responses@.len() - i,
        {
            self.responses[i].serialize(out);
            assert(self.responses@.take(i + 1).drop_last() =~= self.responses@.take(i as int));
            i = i + 1;
            assert(out@ =~= start + concat_map(self.responses@.take(i as int), |t: FetchTopicResponse| fetch_topic_bytes(t)));
        }
        assert(self.responses@.take(i as int) =~= self.responses@);
        out.push(0u8);
        assert(final(out)@ =~= old(out)@ + fetch_response_bytes(*self));
    }
}

/// The first topic of `ts` with the id `id`.
pub open spec fn find_topic_by_id(ts: Seq<TopicRecordModel>, id: i128) -> Option<TopicRecordModel>
    decreases ts.len(),
{
    if ts.len() == 0 {
        None
    } else if ts[0].uuid == id {
        Some(ts[0])
    } else {
        find_topic_by_id(ts.drop_first(), id)
    }
}

/// The partition indexes that a requested topic asks for.
pub open spec fn requested_ids(t: FetchTopicModel) -> Seq<i32> {
    match t.partitions {
        Some(ps) => ps.map_values(|p: FetchPartitionModel| p.partition),
        None => Seq::empty(),
    }
}

/// The partitions of `ps` whose id is among `wanted`, in order.
pub open spec fn selected(ps: Seq<PartitionRecordModel>, wanted: Seq<i32>) -> Seq<PartitionRecordModel>
    decreases ps.len(),
{
    if ps.len() == 0 {
        Seq::empty()
    } else {
        let t = selected(ps.drop_last(), wanted);
        if wanted.contains(ps.last().partition_id) {
            t.push(ps.last())
        } else {
            t
        }
    }
}

/// The reply entry of a requested topic: for an id the log does not hold,
/// one partition with index 0, error 100 and no records; else, for each
/// partition of the topic in log order that the request names, no error and
/// the records of its log.
pub open spec fn fetch_topic_reply(t: FetchTopicModel, log: Seq<RecordBatchModel>, logs: Seq<PartitionLogModel>) -> Seq<u8> {
    match find_topic_by_id(topics_in(log_records(log)), t.topic_id) {
        None => uuid_bytes(t.topic_id) + uvarint_bytes(2)
            + partition_reply(0, ErrorCode::UnknownTopicId, Seq::empty()) + empty_tag_buffer(),
        Some(topic) => {
            let ps = selected(partitions_in(log_records(log), topic.uuid), requested_ids(t));
            uuid_bytes(topic.uuid) + uvarint_bytes(ps.len() + 1)
                + concat_map(ps, |p: PartitionRecordModel| partition_reply(p.partition_id, ErrorCode::NoError, log_for(logs, topic.name, p.partition_id)))
                + empty_tag_buffer()
        },
    }
}

/// Whether a requested topic asks for partition `id`.
fn wants(t: &FetchTopic, id: i32) -> (r: bool)
    ensures
        r == requested_ids(t@).contains(id),
{
    match &t.partitions {
        None => false,
        Some(ps) => {
            let ghost ids = requested_ids(t@);
            let mut i: usize = 0;
            while i < ps.len()
                invariant
                    i <= ps@.len(),
                    ids == fetch_partitions_view(ps@).map_values(|p: FetchPartitionModel| p.partition),
                    ids == requested_ids(t@),
                    forall|j: int| 0 <= j < i ==> ids[j] != id,
                decreases ps@.len() - i,
            {
                if ps[i].partition_index == id {
                    assert(ids.len() == ps@.len());
                    assert(fetch_partitions_view(ps@)[i as int] == ps@[i as int]@);
                    assert(ids[i as int] == id);
                    assert(ids.contains(id));
                    return true;
                }
                i = i + 1;
            }
            assert(ids.len() == ps@.len());
            assert(!ids.contains(id));
            false
        },
    }
}

/// The reply entry of a topic of the metadata.
fn topic_handler(
    topic: &FetchTopic,
    topic_record: &TopicRecord,
    metadata: &MetadataFile,
    logs: &Vec<PartitionLog>,
) -> (r: FetchTopicResponse)
    requires
        find_topic_by_id(topics_in(log_records(metadata@)), topic@.topic_id) == Some(topic_record@),
    ensures
        fetch_topic_bytes(r) == fetch_topic_reply(topic@, metadata@, logs_view(logs@)),
{
    let records = metadata.get_topic_partitions(&topic_record.uuid);
    let ghost all = records@.map_values(|t: &PartitionRecord| t@);
    let ghost wanted = requested_ids(topic@);
    let ghost name = topic_record.topic_name@;
    let mut partitions: Vec<FetchTopicPartition> = Vec::new();
    let mut j: usize = 0;
    while j < records.len()
        invariant
            j <= records@.len(),
            all == records@.map_values(|t: &PartitionRecord| t@),
            wanted == requested_ids(topic@),
            name == topic_record.topic_name@,
            partitions@.len() == selected(all.take(j as int), wanted).len(),
            concat_map(partitions@, |p: FetchTopicPartition| fetch_partition_bytes(p))
                == concat_map(selected(all.take(j as int), wanted), |p: PartitionRecordModel| partition_reply(p.partition_id, ErrorCode::NoError, log_for(logs_view(logs@), name, p.partition_id))),
        decreases records@.len() - j,
    {
        let partition = records[j];
        assert(all.take(j + 1).drop_last() =~= all.take(j as int));
        assert(all.take(j + 1).last() == partition@);
        let ghost sel = selected(all.take(j as int), wanted);
        if wants(topic, partition.partition_id) {
            let bytes = partition_records(logs, &topic_record.topic_name, partition.partition_id);
            let entry = FetchTopicPartition::new(partition.partition_id, ErrorCode::NoError, bytes);
            let ghost before = partitions@;
            partitions.push(entry);
            assert(partitions@.drop_last() =~= before);
            assert(selected(all.take(j + 1), wanted) == sel.push(partition@));
            assert(sel.push(partition@).drop_last() =~= sel);
        } else {
            assert(selected(all.take(j + 1), wanted) == sel);
        }
        j = j + 1;
    }
    assert(all.take(j as int) =~= all);
    FetchTopicResponse { topic_id: topic_record.uuid, partitions }
}

/// The reply entry of a topic id the metadata does not hold.
fn topic_not_found_response(topic: &FetchTopic) -> (r: FetchTopicResponse)
    ensures
        fetch_topic_bytes(r) == uuid_bytes(topic.topic_id) + uvarint_bytes(2)
            + partition_reply(0, ErrorCode::UnknownTopicId, Seq::empty()) + empty_tag_buffer(),
{
    let entry = FetchTopicPartition::new(0, ErrorCode::UnknownTopicId, Vec::new());
    let ghost e = fetch_partition_bytes(entry);
    let mut partitions: Vec<FetchTopicPartition> = Vec::new();
    partitions.push(entry);
    assert(partitions@.drop_last() =~= Seq::<FetchTopicPartition>::empty());
    assert(partitions@.last() == entry);
    assert(concat_map(Seq::<FetchTopicPartition>::empty(), |p: FetchTopicPartition| fetch_partition_bytes(p)) == Seq::<u8>::empty());
    assert(concat_map(partitions@, |p: FetchTopicPartition| fetch_partition_bytes(p)) =~= e);
    FetchTopicResponse { topic_id: topic.topic_id, partitions }
}

/// The topics a request asks for; a null array asks for none.
pub open spec fn requested_topics(req: FetchRequestModel) -> Seq<FetchTopicModel> {
    match req.topics {
        Some(ts) => ts,
        None => Seq::empty(),
    }
}

/// The body that answers a request against the cluster metadata `log`,
/// given the partition logs `logs`.
pub open spec fn fetch_body(req: FetchRequestModel, log: Seq<RecordBatchModel>, logs: Seq<PartitionLogModel>) -> Seq<u8> {
    let ts = requested_topics(req);
    i32_bytes(0) + i16_bytes(0) + i32_bytes(req.session_id) + uvarint_bytes(ts.len() + 1)
        + concat_map(ts, |t: FetchTopicModel| fetch_topic_reply(t, log, logs)) + empty_tag_buffer()
}

/// Answers a `Fetch` request whose body is `body`, from the cluster metadata
/// `metadata` and the partition logs `logs`, with response header v1. A body
/// that cannot be read is refused with the decoder's error.
pub fn fetch_handler(body: &[u8], header: &RequestHeader, metadata: &MetadataFile, logs: &Vec<PartitionLog>) -> (r: Result<Vec<u8>, CodecError>)
    ensures
        match parse_fetch_request(body@, header.request_api_version) {
            Err(e) => r == Err::<Vec<u8>, CodecError>(e),
            Ok((req, _)) => r matches Ok(v) && v@ == response_bytes(header.correlation_id, false, fetch_body(req, metadata@, logs_view(logs@))),
        },
{
    assert(body@.skip(0) =~= body@);
    let (req, _) = FetchRequest::deserialize(body, 0, header.request_api_version)?;
    let ghost ts = requested_topics(req@);
    let ghost log = metadata@;
    let ghost lv = logs_view(logs@);
    let topics = metadata.get_topics();
    let ghost known = topics@.map_values(|t: &TopicRecord| t@);
    let mut responses: Vec<FetchTopicResponse> = Vec::new();
    match &req.topics {
        None => {
            assert(ts =~= Seq::<FetchTopicModel>::empty());
        },
        Some(items) => {
            let mut i: usize = 0;
            while i < items.len()
                invariant
                    i <= items@.len(),
                    ts == fetch_topics_view(items@),
                    log == metadata@,
                    lv == logs_view(logs@),
                    known == topics@.map_values(|t: &TopicRecord| t@),
                    known == topics_in(log_records(log)),
                    responses@.len() == i,
                    concat_map(responses@, |t: FetchTopicResponse| fetch_topic_bytes(t))
                        == concat_map(ts.take(i as int), |t: FetchTopicModel| fetch_topic_reply(t, log, lv)),
                decreases items@.len() - i,
            {
                let topic = &items[i];
                let mut k: usize = 0;
                assert(known.skip(0) =~= known);
                while k < topics.len() && topics[k].uuid != topic.topic_id
                    invariant
                        k <= topics@.len(),
                        known == topics@.map_values(|t: &TopicRecord| t@),
                        find_topic_by_id(known, topic.topic_id) == find_topic_by_id(known.skip(k as int), topic.topic_id),
                    decreases topics@.len() - k,
                {
                    assert(known.skip(k as int).drop_first() =~= known.skip(k + 1));
                    k = k + 1;
                }
                let t = if k < topics.len() {
                    assert(known.skip(k as int)[0] == topics@[k as int]@);
                    topic_handler(topic, topics[k], metadata, logs)
                } else {
                    assert(known.skip(k as int).len() == 0);
                    topic_not_found_response(topic)
                };
                let ghost before = responses@;
                responses.push(t);
                assert(responses@.drop_last() =~= before);
                assert(ts.take(i + 1).drop_last() =~= ts.take(i as int));
                i = i + 1;
            }
            assert(ts.take(i as int) =~= ts);
        },
    }
    let response_body = FetchResponseBody { error_code: ErrorCode::NoError, session_id: req.session_id, responses };
    let mut bytes: Vec<u8> = Vec::new();
    response_body.serialize(&mut bytes);
    assert(bytes@ =~= fetch_body(req@, log, lv));
    Ok(Response::new(header.correlation_id, bytes).to_bytes())
}

} // verus!
