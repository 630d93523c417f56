//! The `ApiVersions` API: which APIs, and which versions of each, this
//! broker answers.
use vstd::prelude::*;
use crate::wire::{i16_bytes, i32_bytes, uvarint_bytes, empty_tag_buffer, concat_map, put_i16, put_i32, put_uvarint};
use crate::common::{Api, ErrorCode};
use crate::request::RequestHeader;
use crate::response::{Response, response_bytes};

verus! {

/// One API with its lowest and highest version.
#[derive(Debug, Clone, Copy)]
pub struct ApiVersionsEntry {
    pub api_key: i16,
    pub min_supported_ver: i16,
    pub max_supported_ver: i16,
}

pub open spec fn api_entry_bytes(e: ApiVersionsEntry) -> Seq<u8> {
    i16_bytes(e.api_key) + i16_bytes(e.min_supported_ver) + i16_bytes(e.max_supported_ver) + empty_tag_buffer()
}

/// The entry that lists `a`.
pub open spec fn entry_of(a: Api) -> ApiVersionsEntry {
    ApiVersionsEntry { api_key: a.spec_key(), min_supported_ver: a.spec_versions().0, max_supported_ver: a.spec_versions().1 }
}

impl ApiVersionsEntry {
    /// Appends the entry, with an empty tag buffer.
    pub fn serialize(&self, out: &mut Vec<u8>)
        ensures
            final(out)@ == old(out)@ + api_entry_bytes(*self),
    {
        put_i16(out, self.api_key);
        put_i16(out, self.min_supported_ver);
        put_i16(out, self.max_supported_ver);
        out.push(0u8);
        assert(final(out)@ =~= old(out)@ + api_entry_bytes(*self));
    }
}

/// The body of an `ApiVersions` response.
#[derive(Debug)]
pub struct ApiVersionsResponse {
    pub error_code: ErrorCode,
    pub api_versions: Vec<ApiVersionsEntry>,
}

/// `error_code:INT16`, the entries as a compact array, `throttle_time_ms:INT32`
/// of zero and a tag buffer.
pub open spec fn api_versions_response_bytes(error_code: ErrorCode, entries: Seq<ApiVersionsEntry>) -> Seq<u8> {
    i16_bytes(error_code.spec_code()) + uvarint_bytes(entries.len() + 1)
        + concat_map(entries, |e: ApiVersionsEntry| api_entry_bytes(e)) + i32_bytes(0) + empty_tag_buffer()
}

impl ApiVersionsResponse {
    pub fn serialize(&self, out: &mut Vec<u8>)
        ensures
            final(out)@ == old(out)@ + api_versions_response_bytes(self.error_code, self.api_versions@),
    {
        put_i16(out, self.error_code.code());
        put_uvarint(out, self.api_versions.len() as u128 + 1);
        let ghost start = out@;
        let mut i: usize = 0;
        while i < self.api_versions.len()
            invariant
                i <= self.api_versions@.len(),
                out@ == start + concat_map(self.api_versions@.take(i as int), |e: ApiVersionsEntry| api_entry_bytes(e)),
            decreases self.api_versions@.len() - i,
        {
            self.api_versions[i].serialize(out);
            assert(self.api_versions@.take(i + 1).drop_last() =~= self.api_versions@.take(i as int));
            i = i + 1;
            assert(out@ =~= start + concat_map(self.api_versions@.take(i as int), |e: ApiVersionsEntry| api_entry_bytes(e)));
        }
        assert(self.api_versions@.take(i as int) =~= self.api_versions@);
        put_i32(out, 0);
        out.push(0u8);
        assert(final(out)@ =~= old(out)@ + api_versions_response_bytes(self.error_code, self.api_versions@));
    }
}

/// The body `ApiVersions` answers to a request of `version`: every API
/// answered, or, for a version it does not answer, error 35 and no entries.
pub open spec fn api_versions_body(version: i16) -> Seq<u8> {
    if 0 <= version <= 4 {
        api_versions_response_bytes(
            ErrorCode::NoError,
            seq![entry_of(Api::ApiVersions), entry_of(Api::Fetch), entry_of(Api::DescribeTopicPartitions)],
        )
    } else {
        api_versions_response_bytes(ErrorCode::Unsupported, Seq::empty())
    }
}

/// Answers an `ApiVersions` request, with response header v0.
pub fn api_versions_handler(header: &RequestHeader) -> (r: Vec<u8>)
    ensures
        r@ == response_bytes(header.correlation_id, true, api_versions_body(header.request_api_version)),
{
    let (min_ver, max_ver) = Api::ApiVersions.versions();
    let version = header.request_api_version;
    let body = if version < min_ver || version > max_ver {
        ApiVersionsResponse { error_code: ErrorCode::Unsupported, api_versions: Vec::new() }
    } else {
        let apis = Api::get_vec();
        let mut entries: Vec<ApiVersionsEntry> = Vec::new();
        let mut i: usize = 0;
        while i < apis.len()
            invariant
                i <= apis@.len(),
                apis@ == seq![Api::ApiVersions, Api::Fetch, Api::DescribeTopicPartitions],
                entries@ == apis@.take(i as int).map_values(|a: Api| entry_of(a)),
            decreases apis@.len() - i,
        {
            let a = apis[i];
            let (min_supported_ver, max_supported_ver) = a.versions();
            entries.push(ApiVersionsEntry { api_key: a.key(), min_supported_ver, max_supported_ver });
            i = i + 1;
            assert(entries@ =~= apis@.take(i as int).map_values(|a: Api| entry_of(a)));
        }
        assert(entries@ =~= seq![entry_of(Api::ApiVersions), entry_of(Api::Fetch), entry_of(Api::DescribeTopicPartitions)]);
        ApiVersionsResponse { error_code: ErrorCode::NoError, api_versions: entries }
    };
    assert(body.api_versions@.len() == 0 ==> body.api_versions@ =~= Seq::<ApiVersionsEntry>::empty());
    let mut bytes: Vec<u8> = Vec::new();
    body.serialize(&mut bytes);
    Response::new_v0(header.correlation_id, bytes).to_bytes()
}

} // verus!
