//! Dispatch: each request frame goes to the handler of its API and version.
use vstd::prelude::*;
use crate::wire::{CodecError, i16_bytes};
use crate::common::{Api, ErrorCode, api_of};
use crate::request::{Request, RequestModel, parse_request};
use crate::response::{response_bytes, invalid_request_response};
use crate::api_versions::{api_versions_handler, api_versions_body};
use crate::describe_topic::{describe_topic_partitions_handler, parse_describe_request, describe_body, requested_names};
use crate::fetch::{fetch_handler, parse_fetch_request, fetch_body, PartitionLog, PartitionLogModel, logs_view};
use crate::metadata::MetadataFile;
use crate::record_batch::RecordBatchModel;

verus! {

/// The API that answers a request of `key` and `version`: `Invalid` for an
/// unknown key or a version outside the API's range.
pub open spec fn dispatched(key: i16, version: i16) -> Api {
    let a = api_of(key);
    if version < a.spec_versions().0 || version > a.spec_versions().1 {
        Api::Invalid
    } else {
        a
    }
}

/// The reply to a request frame, or the error that refuses its body.
pub open spec fn reply(req: RequestModel, log: Seq<RecordBatchModel>, logs: Seq<PartitionLogModel>) -> Result<Seq<u8>, CodecError> {
    let h = req.header;
    match dispatched(h.api_key, h.api_version) {
        Api::ApiVersions => Ok(response_bytes(h.correlation_id, true, api_versions_body(h.api_version))),
        Api::DescribeTopicPartitions => match parse_describe_request(req.body) {
            Err(e) => Err(e),
            Ok((d, _)) => Ok(response_bytes(h.correlation_id, false, describe_body(requested_names(d), log))),
        },
        Api::Fetch => match parse_fetch_request(req.body, h.api_version) {
            Err(e) => Err(e),
            Ok((f, _)) => Ok(response_bytes(h.correlation_id, false, fetch_body(f, log, logs))),
        },
        Api::Invalid => Ok(response_bytes(h.correlation_id, true, i16_bytes(ErrorCode::Unsupported.spec_code()))),
    }
}

/// The API that answers a request of `key` and `version`.
pub fn classify(key: i16, version: i16) -> (r: Api)
    ensures
        r == dispatched(key, version),
{
    let api = Api::from(key);
    let (min_ver, max_ver) = api.versions();
    if version < min_ver || version > max_ver {
        Api::Invalid
    } else {
        api
    }
}

/// Answers one request frame, `bytes`, from the cluster metadata `metadata`
/// and, for `Fetch`, the partition logs `logs`. A frame or body that cannot
/// be read is refused with the decoder's error.
pub fn process_request(bytes: &[u8], metadata: &MetadataFile, logs: &Vec<PartitionLog>) -> (r: Result<Vec<u8>, CodecError>)
    ensures
        match parse_request(bytes@) {
            Err(e) => r == Err::<Vec<u8>, CodecError>(e),
            Ok((req, _)) => match r {
                Ok(v) => reply(req, metadata@, logs_view(logs@)) == Ok::<Seq<u8>, CodecError>(v@),
                Err(e) => reply(req, metadata@, logs_view(logs@)) == Err::<Seq<u8>, CodecError>(e),
            },
        },
{
    assert(bytes@.skip(0) =~= bytes@);
    let (request, _) = Request::deserialize(bytes, 0)?;
    let header = &request.header;
    let api = classify(header.request_api_key, header.request_api_version);
    match api {
        Api::DescribeTopicPartitions => describe_topic_partitions_handler(request.body.as_slice(), header, metadata),
        Api::ApiVersions => Ok(api_versions_handler(header)),
        Api::Fetch => fetch_handler(request.body.as_slice(), header, metadata, logs),
        Api::Invalid => Ok(invalid_request_response(header.correlation_id)),
    }
}

} // verus!
