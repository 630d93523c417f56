//! The `DescribeTopicPartitions` API: for each topic named in the request,
//! its id and partitions as the cluster metadata records them.
use vstd::prelude::*;
use crate::wire::{
    CodecError, CompactArray, TextData, get_i8, get_i32, get_compact_len, skip_tag_buffer,
    parse_i8, parse_i32, parse_compact_string, parse_compact_len, parse_tag_buffer, i8_bytes,
    i16_bytes, i32_bytes, uuid_bytes, uvarint_bytes, compact_string_bytes, i32_array_bytes,
    empty_tag_buffer, concat_map, put_i8, put_i16, put_i32, put_uuid, put_uvarint,
};
use crate::common::ErrorCode;
use crate::record::{PartitionRecord, PartitionRecordModel, TopicRecord, TopicRecordModel};
use crate::metadata::{MetadataFile, log_records, topics_in, partitions_in};
use crate::record_batch::RecordBatchModel;
use crate::request::RequestHeader;
use crate::response::{Response, response_bytes};

verus! {

/// One topic of a request: its name, then a tag buffer.
#[derive(Debug)]
pub struct TopicRequestItem {
    pub topic_name: TextData,
}

/// Reads a requested topic: a compact string and a tag buffer.
pub open spec fn parse_topic_item(s: Seq<u8>) -> Result<(Option<Seq<char>>, nat), CodecError> {
    match parse_compact_string(s) {
        Err(e) => Err(e),
        Ok((name, n)) => match parse_tag_buffer(s.skip(n as int)) {
            Err(e) => Err(e),
            Ok((_, m)) => Ok((name, n + m)),
        },
    }
}

/// Reads `k` requested topics.
pub open spec fn parse_topic_items(s: Seq<u8>, k: nat) -> Result<(Seq<Option<Seq<char>>>, nat), CodecError>
    decreases k,
{
    if k == 0 {
        Ok((Seq::empty(), 0))
    } else {
        match parse_topic_item(s) {
            Err(e) => Err(e),
            Ok((t, n)) => match parse_topic_items(s.skip(n as int), (k - 1) as nat) {
                Err(e) => Err(e),
                Ok((ts, m)) => Ok((seq![t] + ts, n + m)),
            },
        }
    }
}

/// What a request holds: the topic names (`None` for a null array), the
/// partition limit and the cursor.
pub struct DescribeTopicPartitionsRequestModel {
    pub topics: Option<Seq<Option<Seq<char>>>>,
    pub response_partition_limit: i32,
    pub cursor: i8,
}

/// Reads a request body: the topics as a compact array,
/// `response_partition_limit:INT32`, `cursor:INT8`.
pub open spec fn parse_describe_request(s: Seq<u8>) -> Result<(DescribeTopicPartitionsRequestModel, nat), CodecError> {
    match parse_compact_len(s) {
        Err(e) => Err(e),
        Ok((count, n0)) => {
            let s0 = s.skip(n0 as int);
            let items = match count {
                None => Ok((None, 0nat)),
                Some(k) => match parse_topic_items(s0, k) {
                    Err(e) => Err(e),
                    Ok((ts, m)) => Ok((Some(ts), m)),
                },
            };
            match items {
                Err(e) => Err(e),
                Ok((topics, n1)) => {
                    let s1 = s0.skip(n1 as int);
                    match parse_i32(s1) {
                        Err(e) => Err(e),
                        Ok((limit, n2)) => match parse_i8(s1.skip(n2 as int)) {
                            Err(e) => Err(e),
                            Ok((cursor, n3)) => Ok((
                                DescribeTopicPartitionsRequestModel { topics, response_partition_limit: limit, cursor },
                                n0 + n1 + n2 + n3,
                            )),
                        },
                    }
                },
            }
        },
    }
}

/// A `DescribeTopicPartitions` request body.
#[derive(Debug)]
pub struct DescribeTopicPartitionsRequest {
    pub topics_array: CompactArray<TopicRequestItem>,
    pub response_partition_limit: i32,
    pub cursor: i8,
}

pub open spec fn topic_names(v: Seq<TopicRequestItem>) -> Seq<Option<Seq<char>>> {
    v.map_values(|t: TopicRequestItem| t.topic_name@)
}

impl View for DescribeTopicPartitionsRequest {
    type V = DescribeTopicPartitionsRequestModel;

    open spec fn view(&self) -> DescribeTopicPartitionsRequestModel {
        DescribeTopicPartitionsRequestModel {
            topics: match self.topics_array.array {
                Some(v) => Some(topic_names(v@)),
                None => None,
            },
            response_partition_limit: self.response_partition_limit,
            cursor: self.cursor,
        }
    }
}

impl TopicRequestItem {
    /// Reads a requested topic at `pos`.
    pub fn deserialize(buf: &[u8], pos: usize) -> (r: Result<(TopicRequestItem, usize), CodecError>)
        requires
            pos <= buf@.len(),
        ensures
            match r {
                Ok((v, p)) => pos < p <= buf@.len() && parse_topic_item(buf@.skip(pos as int)) == Ok::<(Option<Seq<char>>, nat), CodecError>((v.topic_name@, (p - pos) as nat)),
                Err(e) => parse_topic_item(buf@.skip(pos as int)) == Err::<(Option<Seq<char>>, nat), CodecError>(e),
            },
    {
        let (topic_name, p0) = TextData::deserialize(buf, pos)?;
        assert(buf@.skip(p0 as int) =~= buf@.skip(pos as int).skip(p0 - pos));
        let p1 = skip_tag_buffer(buf, p0)?;
        Ok((TopicRequestItem { topic_name }, p1))
    }
}

/// Reads `k` requested topics at `pos`.
fn read_topic_items(buf: &[u8], pos: usize, k: u64) -> (r: Result<(Vec<TopicRequestItem>, usize), CodecError>)
    requires
        pos <= buf@.len(),
    ensures
        match r {
            Ok((v, p)) => pos <= p <= buf@.len() && parse_topic_items(buf@.skip(pos as int), k as nat) == Ok::<(Seq<Option<Seq<char>>>, nat), CodecError>((topic_names(v@), (p - pos) as nat)),
            Err(e) => parse_topic_items(buf@.skip(pos as int), k as nat) == Err::<(Seq<Option<Seq<char>>>, nat), CodecError>(e),
        },
{
    let mut v: Vec<TopicRequestItem> = Vec::new();
    let mut p = pos;
    let mut i: u64 = 0;
    while i < k
        invariant
            pos <= p <= buf.len(),
            i <= k,
            parse_topic_items(buf@.skip(pos as int), k as nat) == match parse_topic_items(buf@.skip(p as int), (k - i) as nat) {
                Err(e) => Err(e),
                Ok((ts, m)) => Ok::<(Seq<Option<Seq<char>>>, nat), CodecError>((topic_names(v@) + ts, ((p - pos) + m) as nat)),
            },
        decreases k - i,
    {
        let ghost s = buf@.skip(p as int);
        let (item, q) = match TopicRequestItem::deserialize(buf, p) {
            Ok(x) => x,
            Err(e) => {
                return Err(e);
            },
        };
        assert(buf@.skip(q as int) =~= s.skip(q - p));
        let ghost before = topic_names(v@);
        v.push(item);
        assert(topic_names(v@) =~= before + seq![item.topic_name@]);
        assert forall|ts: Seq<Option<Seq<char>>>| #![auto] before + (seq![item.topic_name@] + ts) =~= topic_names(v@) + ts by {}
        p = q;
        i = i + 1;
    }
    assert(topic_names(v@) + Seq::<Option<Seq<char>>>::empty() =~= topic_names(v@));
    Ok((v, p))
}

impl DescribeTopicPartitionsRequest {
    /// Reads a request body at `pos`.
    pub fn deserialize(buf: &[u8], pos: usize) -> (r: Result<(DescribeTopicPartitionsRequest, usize), CodecError>)
        requires
            pos <= buf@.len(),
        ensures
            match r {
                Ok((v, p)) => pos < p <= buf@.len() && parse_describe_request(buf@.skip(pos as int)) == Ok::<(DescribeTopicPartitionsRequestModel, nat), CodecError>((v@, (p - pos) as nat)),
                Err(e) => parse_describe_request(buf@.skip(pos as int)) == Err::<(DescribeTopicPartitionsRequestModel, nat), CodecError>(e),
            },
    {
        let (count, p0) = get_compact_len(buf, pos)?;
        assert(buf@.skip(p0 as int) =~= buf@.skip(pos as int).skip(p0 - pos));
        let (topics_array, p1) = match count {
            None => (CompactArray { array: None }, p0),
            Some(k) => {
                let (v, p) = read_topic_items(buf, p0, k)?;
                (CompactArray { array: Some(v) }, p)
            },
        };
        assert(buf@.skip(p1 as int) =~= buf@.skip(p0 as int).skip(p1 - p0));
        let (response_partition_limit, p2) = get_i32(buf, p1)?;
        assert(buf@.skip(p2 as int) =~= buf@.skip(p1 as int).skip(p2 - p1));
        let (cursor, p3) = get_i8(buf, p2)?;
        Ok((DescribeTopicPartitionsRequest { topics_array, response_partition_limit, cursor }, p3))
    }
}

/// One partition of a topic in a response.
#[derive(Debug)]
pub struct Partition {
    pub error_code: ErrorCode,
    pub partition_index: i32,
    pub leader_id: i32,
    pub leader_epoch: i32,
    pub replica_nodes: CompactArray<i32>,
    pub isr_nodes: CompactArray<i32>,
    pub eligible_nodes: CompactArray<i32>,
    pub last_known_elr: CompactArray<i32>,
    pub offline_replicas: CompactArray<i32>,
}

pub open spec fn partition_bytes(p: Partition) -> Seq<u8> {
    i16_bytes(p.error_code.spec_code()) + i32_bytes(p.partition_index) + i32_bytes(p.leader_id)
        + i32_bytes(p.leader_epoch) + i32_array_bytes(p.replica_nodes@) + i32_array_bytes(p.isr_nodes@)
        + i32_array_bytes(p.eligible_nodes@) + i32_array_bytes(p.last_known_elr@)
        + i32_array_bytes(p.offline_replicas@) + empty_tag_buffer()
}

/// The reply entry of a partition of the metadata: no error, its id as the
/// index, its leader and epoch, replicas and in-sync replicas, and empty
/// eligible, last-known-eligible and offline arrays.
pub open spec fn partition_reply_bytes(p: PartitionRecordModel) -> Seq<u8> {
    let none = i32_array_bytes(Some(Seq::empty()));
    i16_bytes(0) + i32_bytes(p.partition_id) + i32_bytes(p.state.leader_id) + i32_bytes(p.state.leader_epoch)
        + i32_array_bytes(p.replicas) + i32_array_bytes(p.isr) + none + none + none + empty_tag_buffer()
}

impl Partition {
    pub fn serialize(&self, out: &mut Vec<u8>)
        ensures
            final(out)@ == old(out)@ + partition_bytes(*self),
    {
        put_i16(out, self.error_code.code());
        put_i32(out, self.partition_index);
        put_i32(out, self.leader_id);
        put_i32(out, self.leader_epoch);
        self.replica_nodes.serialize(out);
        self.isr_nodes.serialize(out);
        self.eligible_nodes.serialize(out);
        self.last_known_elr.serialize(out);
        self.offline_replicas.serialize(out);
        out.push(0u8);
        assert(final(out)@ =~= old(out)@ + partition_bytes(*self));
    }
}

impl PartitionRecord {
    /// The reply entry of this partition.
    pub fn into_partition_response(&self) -> (r: Partition)
        ensures
            partition_bytes(r) == partition_reply_bytes(self@),
    {
        Partition {
            error_code: ErrorCode::NoError,
            partition_index: self.partition_id,
            leader_id: self.state.leader_id,
            leader_epoch: self.state.leader_epoch,
            replica_nodes: self.replica_array.copied(),
            isr_nodes: self.in_sync_replica_array.copied(),
            eligible_nodes: CompactArray::new(Vec::new()),
            last_known_elr: CompactArray::new(Vec::new()),
            offline_replicas: CompactArray::new(Vec::new()),
        }
    }
}

/// One topic in a response.
#[derive(Debug)]
pub struct Topic {
    pub error_code: i16,
    pub topic_name: TextData,
    pub topic_id: i128,
    pub is_internal: bool,
    pub partitions: Vec<Partition>,
    pub operations: i32,
}

pub open spec fn topic_bytes(t: Topic) -> Seq<u8> {
    i16_bytes(t.error_code) + compact_string_bytes(t.topic_name@) + uuid_bytes(t.topic_id)
        + i8_bytes(if t.is_internal { 1 } else { 0 }) + uvarint_bytes(t.partitions@.len() + 1)
        + concat_map(t.partitions@, |p: Partition| partition_bytes(p)) + i32_bytes(t.operations)
        + empty_tag_buffer()
}

impl Topic {
    pub fn serialize(&self, out: &mut Vec<u8>)
        ensures
            final(out)@ == old(out)@ + topic_bytes(*self),
    {
        put_i16(out, self.error_code);
        self.topic_name.serialize(out);
        put_uuid(out, self.topic_id);
        put_i8(out, if self.is_internal { 1 } else { 0 });
        put_uvarint(out, self.partitions.len() as u128 + 1);
        let ghost start = out@;
        let mut i: usize = 0;
        while i < self.partitions.len()
            invariant
                i <= self.partitions@.len(),
                out@ == start + concat_map(self.partitions@.take(i as int), |p: Partition| partition_bytes(p)),
            decreases self.partitions@.len() - i,
        {
            self.partitions[i].serialize(out);
            assert(self.partitions@.take(i + 1).drop_last() =~= self.partitions@.take(i as int));
            i = i + 1;
            assert(out@ =~= start + concat_map(self.partitions@.take(i as int), |p: Partition| partition_bytes(p)));
        }
        assert(self.partitions@.take(i as int) =~= self.partitions@);
        put_i32(out, self.operations);
        out.push(0u8);
        assert(final(out)@ =~= old(out)@ + topic_bytes(*self));
    }
}

/// The operations granted on a topic that exists: the standard read and
/// describe bits.
pub const TOPIC_OPERATIONS: i32 = 0x0DF8;

/// The first topic of `ts` named `name`.
pub open spec fn find_topic_named(ts: Seq<TopicRecordModel>, name: Option<Seq<char>>) -> Option<TopicRecordModel>
    decreases ts.len(),
{
    if ts.len() == 0 {
        None
    } else if ts[0].name == name {
        Some(ts[0])
    } else {
        find_topic_named(ts.drop_first(), name)
    }
}

/// The reply entry of the topic named `name` in the log `log`: error 3 and
/// a zero id for a topic the log does not hold; else no error, the id of the
/// first topic of that name and the reply of each of its partitions, in log
/// order.
pub open spec fn topic_reply_bytes(name: Option<Seq<char>>, log: Seq<RecordBatchModel>) -> Seq<u8> {
    match find_topic_named(topics_in(log_records(log)), name) {
        None => i16_bytes(3) + compact_string_bytes(name) + uuid_bytes(0) + i8_bytes(0) + uvarint_bytes(1)
            + i32_bytes(0) + empty_tag_buffer(),
        Some(t) => {
            let ps = partitions_in(log_records(log), t.uuid);
            i16_bytes(0) + compact_string_bytes(t.name) + uuid_bytes(t.uuid) + i8_bytes(0)
                + uvarint_bytes(ps.len() + 1) + concat_map(ps, |p: PartitionRecordModel| partition_reply_bytes(p))
                + i32_bytes(TOPIC_OPERATIONS) + empty_tag_buffer()
        },
    }
}

pub open spec fn part_views(v: Seq<&PartitionRecord>) -> Seq<PartitionRecordModel> {
    v.map_values(|t: &PartitionRecord| t@)
}

/// The reply entry of the topic named `topic_name`.
fn handle_topic(topic_name: &TextData, metadata: &MetadataFile) -> (r: Topic)
    ensures
        topic_bytes(r) == topic_reply_bytes(topic_name@, metadata@),
{
    let topics = metadata.get_topics();
    let ghost ts = topics@.map_values(|t: &TopicRecord| t@);
    let mut i: usize = 0;
    assert(ts.skip(0) =~= ts);
    while i < topics.len() && !topics[i].topic_name.same(topic_name)
        invariant
            i <= topics@.len(),
            ts == topics@.map_values(|t: &TopicRecord| t@),
            find_topic_named(ts, topic_name@) == find_topic_named(ts.skip(i as int), topic_name@),
        decreases topics@.len() - i,
    {
        assert(ts.skip(i as int).drop_first() =~= ts.skip(i + 1));
        i = i + 1;
    }
    if i == topics.len() {
        assert(ts.skip(i as int).len() == 0);
        let r = Topic {
            error_code: ErrorCode::UnknownTopicOrPartition.code(),
            topic_name: topic_name.copied(),
            topic_id: 0,
            is_internal: false,
            partitions: Vec::new(),
            operations: 0,
        };
        assert(r.partitions@ =~= Seq::<Partition>::empty());
        return r;
    }
    let topic = topics[i];
    assert(ts.skip(i as int)[0] == topic@);
    let records = metadata.get_topic_partitions(&topic.uuid);
    let ghost ps = part_views(records@);
    let mut partitions: Vec<Partition> = Vec::new();
    let mut j: usize = 0;
    while j < records.len()
        invariant
            j <= records@.len(),
            ps == part_views(records@),
            partitions@.len() == j,
            concat_map(partitions@, |p: Partition| partition_bytes(p))
                == concat_map(ps.take(j as int), |p: PartitionRecordModel| partition_reply_bytes(p)),
        decreases records@.len() - j,
    {
        let part = records[j].into_partition_response();
        let ghost before = partitions@;
        partitions.push(part);
        assert(partitions@.drop_last() =~= before);
        assert(ps.take(j + 1).drop_last() =~= ps.take(j as int));
        j = j + 1;
    }
    assert(ps.take(j as int) =~= ps);
    Topic {
        error_code: ErrorCode::NoError.code(),
        topic_name: topic.topic_name.copied(),
        topic_id: topic.uuid,
        is_internal: false,
        partitions,
        operations: TOPIC_OPERATIONS,
    }
}

/// The body of a response: `throttle_time_ms:INT32` of zero, the topics as a
/// compact array, `next_cursor` `0xFF` for no more pages, and a tag buffer.
#[derive(Debug)]
pub struct DescribeTopicPartitionsResponse {
    pub topics: Vec<Topic>,
}

pub open spec fn describe_response_bytes(topics: Seq<Topic>) -> Seq<u8> {
    i32_bytes(0) + uvarint_bytes(topics.len() + 1) + concat_map(topics, |t: Topic| topic_bytes(t)) + seq![0xFFu8]
        + empty_tag_buffer()
}

impl DescribeTopicPartitionsResponse {
    pub fn serialize(&self, out: &mut Vec<u8>)
        ensures
            final(out)@ == old(out)@ + describe_response_bytes(self.topics@),
    {
        put_i32(out, 0);
        put_uvarint(out, self.topics.len() as u128 + 1);
        let ghost start = out@;
        let mut i: usize = 0;
        while i < self.topics.len()
            invariant
                i <= self.topics@.len(),
                out@ == start + concat_map(self.topics@.take(i as int), |t: Topic| topic_bytes(t)),
            decreases self.topics@.len() - i,
        {
            self.topics[i].serialize(out);
            assert(self.topics@.take(i + 1).drop_last() =~= self.topics@.take(i as int));
            i = i + 1;
            assert(out@ =~= start + concat_map(self.topics@.take(i as int), |t: Topic| topic_bytes(t)));
        }
        assert(self.topics@.take(i as int) =~= self.topics@);
        out.push(0xFFu8);
        out.push(0u8);
        assert(final(out)@ =~= old(out)@ + describe_response_bytes(self.topics@));
    }
}

/// The names a request asks for; a null array asks for none.
pub open spec fn requested_names(req: DescribeTopicPartitionsRequestModel) -> Seq<Option<Seq<char>>> {
    match req.topics {
        Some(ts) => ts,
        None => Seq::empty(),
    }
}

/// The body that answers a request for `names` against the log `log`.
pub open spec fn describe_body(names: Seq<Option<Seq<char>>>, log: Seq<RecordBatchModel>) -> Seq<u8> {
    i32_bytes(0) + uvarint_bytes(names.len() + 1)
        + concat_map(names, |n: Option<Seq<char>>| topic_reply_bytes(n, log)) + seq![0xFFu8] + empty_tag_buffer()
}

/// Answers a `DescribeTopicPartitions` request whose body is `body`, from the
/// cluster metadata `metadata`, with response header v1. A body that cannot
/// be read is refused with the decoder's error.
pub fn describe_topic_partitions_handler(body: &[u8], header: &RequestHeader, metadata: &MetadataFile) -> (r: Result<Vec<u8>, CodecError>)
    ensures
        match parse_describe_request(body@) {
            Err(e) => r == Err::<Vec<u8>, CodecError>(e),
            Ok((req, _)) => r matches Ok(v) && v@ == response_bytes(header.correlation_id, false, describe_body(requested_names(req), metadata@)),
        },
{
    assert(body@.skip(0) =~= body@);
    let (req, _) = DescribeTopicPartitionsRequest::deserialize(body, 0)?;
    let ghost names = requested_names(req@);
    let mut topics: Vec<Topic> = Vec::new();
    match &req.topics_array.array {
        None => {
            assert(names =~= Seq::<Option<Seq<char>>>::empty());
        },
        Some(items) => {
            let mut i: usize = 0;
            while i < items.len()
                invariant
                    i <= items@.len(),
                    names == topic_names(items@),
                    topics@.len() == i,
                    concat_map(topics@, |t: Topic| topic_bytes(t))
                        == concat_map(names.take(i as int), |n: Option<Seq<char>>| topic_reply_bytes(n, metadata@)),
                decreases items@.len() - i,
            {
                let t = handle_topic(&items[i].topic_name, metadata);
                let ghost before = topics@;
                topics.push(t);
                assert(topics@.drop_last() =~= before);
                assert(names.take(i + 1).drop_last() =~= names.take(i as int));
                i = i + 1;
            }
            assert(names.take(i as int) =~= names);
        },
    }
    let response = DescribeTopicPartitionsResponse { topics };
    let mut bytes: Vec<u8> = Vec::new();
    response.serialize(&mut bytes);
    assert(bytes@ =~= describe_body(names, metadata@));
    Ok(Response::new(header.correlation_id, bytes).to_bytes())
}

} // verus!
