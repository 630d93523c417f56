//! Response frames: an `INT32 message_size`, a response header (v0: the
//! correlation id; v1: the correlation id and a tag buffer), then the body.
use vstd::prelude::*;
use crate::wire::{
    CodecError, be_bytes, i32_bytes, i16_bytes, empty_tag_buffer, parse_i32, put_i32, put_u32,
    put_bytes, lemma_be_round_trip, lemma_be_bytes_len, pow256,
};
use crate::common::{EmptyResponseBody, ErrorCode};

verus! {

/// The bytes of a response: the size of what follows, then the header and
/// the body.
pub open spec fn response_bytes(correlation_id: i32, header_v0: bool, body: Seq<u8>) -> Seq<u8> {
    let rest = i32_bytes(correlation_id) + (if header_v0 { Seq::empty() } else { empty_tag_buffer() }) + body;
    be_bytes(rest.len() % 0x1_0000_0000, 4) + rest
}

/// A response, its body already encoded.
#[derive(Debug)]
pub struct Response {
    pub correlation_id: i32,
    pub body: Vec<u8>,
    pub skip_tag_buffer: bool,
}

impl Response {
    /// A response with header v1.
    pub fn new(correlation_id: i32, body: Vec<u8>) -> (r: Response)
        ensures
            r.correlation_id == correlation_id,
            r.body@ == body@,
            !r.skip_tag_buffer,
    {
        Response { correlation_id, body, skip_tag_buffer: false }
    }

    /// A response with header v0, which has no tag buffer.
    pub fn new_v0(correlation_id: i32, body: Vec<u8>) -> (r: Response)
        ensures
            r.correlation_id == correlation_id,
            r.body@ == body@,
            r.skip_tag_buffer,
    {
        Response { correlation_id, body, skip_tag_buffer: true }
    }

    /// The framed response.
    pub fn to_bytes(&self) -> (r: Vec<u8>)
        ensures
            r@ == response_bytes(self.correlation_id, self.skip_tag_buffer, self.body@),
    {
        let mut rest: Vec<u8> = Vec::new();
        put_i32(&mut rest, self.correlation_id);
        if !self.skip_tag_buffer {
            rest.push(0u8);
        }
        put_bytes(&mut rest, self.body.as_slice());
        let mut out: Vec<u8> = Vec::new();
        put_u32(&mut out, (rest.len() as u64 % 0x1_0000_0000) as u32);
        put_bytes(&mut out, rest.as_slice());
        assert(out@ =~= response_bytes(self.correlation_id, self.skip_tag_buffer, self.body@));
        out
    }
}

/// The leading `message_size` of every response equals the number of bytes
/// after it, whenever that number fits in an `INT32`.
pub proof fn lemma_response_size(correlation_id: i32, header_v0: bool, body: Seq<u8>)
    requires
        response_bytes(correlation_id, header_v0, body).len() - 4 < 0x8000_0000,
    ensures
        parse_i32(response_bytes(correlation_id, header_v0, body)) == Ok::<(i32, nat), CodecError>((
            (response_bytes(correlation_id, header_v0, body).len() - 4) as i32,
            4,
        )),
{
    let r = response_bytes(correlation_id, header_v0, body);
    let rest = i32_bytes(correlation_id) + (if header_v0 { Seq::empty() } else { empty_tag_buffer() }) + body;
    let l = rest.len() % 0x1_0000_0000;
    lemma_be_bytes_len(l, 4);
    reveal_with_fuel(pow256, 5);
    lemma_be_round_trip(l, 4);
    assert(r.take(4) =~= be_bytes(l, 4));
}

/// The response to a request that names an unknown API or an unsupported
/// version: header v0 and the error code 35 alone.
pub fn invalid_request_response(correlation_id: i32) -> (r: Vec<u8>)
    ensures
        r@ == response_bytes(correlation_id, true, i16_bytes(ErrorCode::Unsupported.spec_code())),
{
    let body = EmptyResponseBody { error_code: ErrorCode::Unsupported };
    let mut bytes: Vec<u8> = Vec::new();
    body.serialize(&mut bytes);
    Response::new_v0(correlation_id, bytes).to_bytes()
}

} // verus!
