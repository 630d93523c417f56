//! A KRaft log file as a sequence of record batches, and the queries that
//! the request handlers make of a cluster-metadata snapshot.
use vstd::prelude::*;
use crate::wire::{CodecError, concat_map, lemma_concat_map_front};
use crate::record::{RecordValueModel, TopicRecord, TopicRecordModel, PartitionRecord, PartitionRecordModel};
use crate::record_batch::{
    RecordBatch, RecordBatchModel, RecordModel, parse_batch, batch_bytes, records_view, batch_canonical,
    lemma_batch_round_trip,
};

verus! {

pub open spec fn batches_view(v: Seq<RecordBatch>) -> Seq<RecordBatchModel> {
    v.map_values(|b: RecordBatch| b@)
}

/// Reads batches until the bytes run out; no bytes are no batches.
pub open spec fn parse_log(s: Seq<u8>) -> Result<Seq<RecordBatchModel>, CodecError>
    decreases s.len(),
{
    if s.len() == 0 {
        Ok(Seq::empty())
    } else {
        match parse_batch(s) {
            Err(e) => Err(e),
            // A batch takes at least its fixed header and never more bytes
            // than there are; the test keeps the recursion well-founded.
            Ok((b, n)) => if n == 0 || n > s.len() {
                Err(CodecError::InvalidLength)
            } else {
                match parse_log(s.skip(n as int)) {
                    Err(e) => Err(e),
                    Ok(bs) => Ok(seq![b] + bs),
                }
            },
        }
    }
}

/// The bytes of a log: its batches, one after another.
pub open spec fn log_bytes(bs: Seq<RecordBatchModel>) -> Seq<u8> {
    concat_map(bs, |b: RecordBatchModel| batch_bytes(b))
}

/// Every record of the log, in log order.
pub open spec fn log_records(bs: Seq<RecordBatchModel>) -> Seq<RecordModel>
    decreases bs.len(),
{
    if bs.len() == 0 {
        Seq::empty()
    } else {
        log_records(bs.drop_last()) + bs.last().records
    }
}

/// The topic values among `rs`, in order.
pub open spec fn topics_in(rs: Seq<RecordModel>) -> Seq<TopicRecordModel>
    decreases rs.len(),
{
    if rs.len() == 0 {
        Seq::empty()
    } else {
        let t = topics_in(rs.drop_last());
        match rs.last().value {
            RecordValueModel::Topic(x) => t.push(x),
            _ => t,
        }
    }
}

/// The partition values of the topic `uuid` among `rs`, in order.
pub open spec fn partitions_in(rs: Seq<RecordModel>, uuid: i128) -> Seq<PartitionRecordModel>
    decreases rs.len(),
{
    if rs.len() == 0 {
        Seq::empty()
    } else {
        let t = partitions_in(rs.drop_last(), uuid);
        match rs.last().value {
            RecordValueModel::Partition(x) => if x.topic_uuid == uuid {
                t.push(x)
            } else {
                t
            },
            _ => t,
        }
    }
}

/// A log file, decoded.
#[derive(Debug)]
pub struct MetadataFile {
    pub record_batches: Vec<RecordBatch>,
}

impl View for MetadataFile {
    type V = Seq<RecordBatchModel>;

    open spec fn view(&self) -> Seq<RecordBatchModel> {
        batches_view(self.record_batches@)
    }
}

impl MetadataFile {
    /// A log without batches.
    pub fn empty() -> (r: MetadataFile)
        ensures
            r@ == Seq::<RecordBatchModel>::empty(),
    {
        let r = MetadataFile { record_batches: Vec::new() };
        assert(r@ =~= Seq::<RecordBatchModel>::empty());
        r
    }

    /// Decodes a whole log file.
    pub fn deserialize(buf: &[u8]) -> (r: Result<MetadataFile, CodecError>)
        ensures
            match r {
                Ok(f) => parse_log(buf@) == Ok::<Seq<RecordBatchModel>, CodecError>(f@),
                Err(e) => parse_log(buf@) == Err::<Seq<RecordBatchModel>, CodecError>(e),
            },
    {
        let mut v: Vec<RecordBatch> = Vec::new();
        let mut p: usize = 0;
        assert(buf@.skip(0) =~= buf@);
        while p < buf.len()
            invariant
                p <= buf.len(),
                parse_log(buf@) == match parse_log(buf@.skip(p as int)) {
                    Err(e) => Err(e),
                    Ok(bs) => Ok::<Seq<RecordBatchModel>, CodecError>(batches_view(v@) + bs),
                },
            decreases buf.len() - p,
        {
            let ghost s = buf@.skip(p as int);
            let (batch, q) = match RecordBatch::deserialize(buf, p) {
                Ok(x) => x,
                Err(e) => {
                    return Err(e);
                },
            };
            assert(buf@.skip(q as int) =~= s.skip(q - p));
            let ghost before = batches_view(v@);
            v.push(batch);
            assert(batches_view(v@) =~= before + seq![batch@]);
            assert forall|bs: Seq<RecordBatchModel>| #![auto] before + (seq![batch@] + bs) =~= batches_view(v@) + bs by {}
            p = q;
        }
        assert(buf@.skip(p as int).len() == 0);
        assert(batches_view(v@) + Seq::<RecordBatchModel>::empty() =~= batches_view(v@));
        Ok(MetadataFile { record_batches: v })
    }

    /// Appends every batch, re-encoded.
    pub fn serialize(&self, out: &mut Vec<u8>)
        ensures
            final(out)@ == old(out)@ + log_bytes(self@),
    {
        let ghost start = out@;
        let mut i: usize = 0;
        while i < self.record_batches.len()
            invariant
                i <= self.record_batches@.len(),
                out@ == start + log_bytes(batches_view(self.record_batches@.take(i as int))),
            decreases self.record_batches@.len() - i,
        {
            self.record_batches[i].serialize(out);
            assert(batches_view(self.record_batches@.take(i + 1)).drop_last() =~= batches_view(self.record_batches@.take(i as int)));
            i = i + 1;
            assert(out@ =~= start + log_bytes(batches_view(self.record_batches@.take(i as int))));
        }
        assert(self.record_batches@.take(i as int) =~= self.record_batches@);
    }

    /// Every topic value of the log, in log order.
    pub fn get_topics(&self) -> (r: Vec<&TopicRecord>)
        ensures
            r@.map_values(|t: &TopicRecord| t@) == topics_in(log_records(self@)),
    {
        let mut r: Vec<&TopicRecord> = Vec::new();
        let ghost bs = self@;
        let mut i: usize = 0;
        while i < self.record_batches.len()
            invariant
                i <= self.record_batches@.len(),
                bs == self@,
                r@.map_values(|t: &TopicRecord| t@) == topics_in(log_records(bs.take(i as int))),
            decreases self.record_batches@.len() - i,
        {
            let batch = &self.record_batches[i];
            let ghost recs = records_view(batch.records@);
            let mut j: usize = 0;
            assert(recs.take(0) =~= Seq::<RecordModel>::empty());
            assert(log_records(bs.take(i as int)) + recs.take(0) =~= log_records(bs.take(i as int)));
            while j < batch.records.len()
                invariant
                    j <= batch.records@.len(),
                    recs == records_view(batch.records@),
                    r@.map_values(|t: &TopicRecord| t@) == topics_in(log_records(bs.take(i as int)) + recs.take(j as int)),
                decreases batch.records@.len() - j,
            {
                let ghost x = log_records(bs.take(i as int)) + recs.take(j as int);
                assert((log_records(bs.take(i as int)) + recs.take(j + 1)).drop_last() =~= x);
                let ghost before = r@;
                match batch.records[j].value.try_get_topic() {
                    Some(t) => {
                        r.push(t);
                        assert(r@.map_values(|t: &TopicRecord| t@) =~= before.map_values(|t: &TopicRecord| t@).push(t@));
                    },
                    None => {},
                }
                j = j + 1;
            }
            assert(bs.take(i + 1).drop_last() =~= bs.take(i as int));
            assert(recs.take(j as int) =~= recs);
            i = i + 1;
        }
        assert(bs.take(i as int) =~= bs);
        r
    }

    /// Every partition value of the topic `topic_uuid`, in log order.
    pub fn get_topic_partitions(&self, topic_uuid: &i128) -> (r: Vec<&PartitionRecord>)
        ensures
            r@.map_values(|t: &PartitionRecord| t@) == partitions_in(log_records(self@), *topic_uuid),
    {
        let mut r: Vec<&PartitionRecord> = Vec::new();
        let ghost bs = self@;
        let mut i: usize = 0;
        while i < self.record_batches.len()
            invariant
                i <= self.record_batches@.len(),
                bs == self@,
                r@.map_values(|t: &PartitionRecord| t@) == partitions_in(log_records(bs.take(i as int)), *topic_uuid),
            decreases self.record_batches@.len() - i,
        {
            let batch = &self.record_batches[i];
            let ghost recs = records_view(batch.records@);
            let mut j: usize = 0;
            assert(recs.take(0) =~= Seq::<RecordModel>::empty());
            assert(log_records(bs.take(i as int)) + recs.take(0) =~= log_records(bs.take(i as int)));
            while j < batch.records.len()
                invariant
                    j <= batch.records@.len(),
                    recs == records_view(batch.records@),
                    r@.map_values(|t: &PartitionRecord| t@) == partitions_in(log_records(bs.take(i as int)) + recs.take(j as int), *topic_uuid),
                decreases batch.records@.len() - j,
            {
                let ghost x = log_records(bs.take(i as int)) + recs.take(j as int);
                assert((log_records(bs.take(i as int)) + recs.take(j + 1)).drop_last() =~= x);
                let ghost before = r@;
                match batch.records[j].value.try_get_topic_partition(topic_uuid) {
                    Some(t) => {
                        r.push(t);
                        assert(r@.map_values(|t: &PartitionRecord| t@) =~= before.map_values(|t: &PartitionRecord| t@).push(t@));
                    },
                    None => {},
                }
                j = j + 1;
            }
            assert(bs.take(i + 1).drop_last() =~= bs.take(i as int));
            assert(recs.take(j as int) =~= recs);
            i = i + 1;
        }
        assert(bs.take(i as int) =~= bs);
        r
    }
}

/// A log of canonical batches reads back as written: decoding the bytes the
/// encoder writes for it gives every batch back, in order.
pub proof fn lemma_log_round_trip(bs: Seq<RecordBatchModel>)
    requires
        forall|i: int| 0 <= i < bs.len() ==> batch_canonical(#[trigger] bs[i]),
    ensures
        parse_log(log_bytes(bs)) == Ok::<Seq<RecordBatchModel>, CodecError>(bs),
    decreases bs.len(),
{
    let f = |b: RecordBatchModel| batch_bytes(b);
    if bs.len() == 0 {
        assert(log_bytes(bs) =~= Seq::<u8>::empty());
        assert(bs =~= Seq::<RecordBatchModel>::empty());
    } else {
        lemma_concat_map_front(bs, f);
        let t = bs.drop_first();
        assert forall|i: int| 0 <= i < t.len() implies batch_canonical(#[trigger] t[i]) by {
            assert(t[i] == bs[i + 1]);
        }
        lemma_log_round_trip(t);
        assert(batch_canonical(bs[0]));
        lemma_batch_round_trip(bs[0], log_bytes(t));
        let head = batch_bytes(bs[0]);
        let s = log_bytes(bs);
        assert(s =~= head + log_bytes(t));
        assert(head.len() > 0) by {
            assert(head =~= crate::record_batch::batch_frame_bytes(bs[0], crate::record_batch::batch_tail_bytes(bs[0]), crate::record_batch::crc32c_of(crate::record_batch::batch_tail_bytes(bs[0]))));
            crate::wire::lemma_int_lens(0, 0, 0, bs[0].base_offset, 0, 0);
        }
        assert(s.skip(head.len() as int) =~= log_bytes(t));
        assert(seq![bs[0]] + t =~= bs);
    }
}

} // verus!
