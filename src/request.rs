//! Request frames: an `INT32 message_size`, then a request header v2 and the
//! body, `message_size` bytes in all.
use vstd::prelude::*;
use crate::wire::{CodecError, get_i16, get_i32, get_bytes, skip_tag_buffer, parse_i16, parse_i32, parse_tag_buffer};
use crate::common::{ClientId, parse_nullable_string};

verus! {

/// What a request header holds.
pub struct RequestHeaderModel {
    pub message_size: i32,
    pub api_key: i16,
    pub api_version: i16,
    pub correlation_id: i32,
    pub client_id: Option<Seq<char>>,
}

/// A request header v2, with the size of its frame.
#[derive(Debug)]
pub struct RequestHeader {
    pub message_size: i32,
    pub request_api_key: i16,
    pub request_api_version: i16,
    pub correlation_id: i32,
    pub client_id: ClientId,
}

impl View for RequestHeader {
    type V = RequestHeaderModel;

    open spec fn view(&self) -> RequestHeaderModel {
        RequestHeaderModel {
            message_size: self.message_size,
            api_key: self.request_api_key,
            api_version: self.request_api_version,
            correlation_id: self.correlation_id,
            client_id: self.client_id@,
        }
    }
}

/// Reads the fields of a request header v2 after the frame size:
/// `api_key:INT16, api_version:INT16, correlation_id:INT32`, the client id
/// and a tag buffer.
#[verifier::opaque]
pub open spec fn parse_header_fields(s: Seq<u8>, message_size: i32) -> Result<(RequestHeaderModel, nat), CodecError> {
    match parse_i16(s) {
        Err(e) => Err(e),
        Ok((api_key, n0)) => {
            let s0 = s.skip(n0 as int);
            match parse_i16(s0) {
                Err(e) => Err(e),
                Ok((api_version, n1)) => {
                    let s1 = s0.skip(n1 as int);
                    match parse_i32(s1) {
                        Err(e) => Err(e),
                        Ok((correlation_id, n2)) => {
                            let s2 = s1.skip(n2 as int);
                            match parse_nullable_string(s2) {
                                Err(e) => Err(e),
                                Ok((client_id, n3)) => {
                                    let s3 = s2.skip(n3 as int);
                                    match parse_tag_buffer(s3) {
                                        Err(e) => Err(e),
                                        Ok((_, n4)) => Ok((
                                            RequestHeaderModel { message_size, api_key, api_version, correlation_id, client_id },
                                            n0 + n1 + n2 + n3 + n4,
                                        )),
                                    }
                                },
                            }
                        },
                    }
                },
            }
        },
    }
}

/// What a request frame holds.
pub struct RequestModel {
    pub header: RequestHeaderModel,
    pub body: Seq<u8>,
}

/// Reads a request frame: its size, which must not be negative, then the
/// header, which must lie within the frame; the body is the rest of the
/// frame. A frame takes its size plus four bytes.
pub open spec fn parse_request(s: Seq<u8>) -> Result<(RequestModel, nat), CodecError> {
    match parse_i32(s) {
        Err(e) => Err(e),
        Ok((size, n)) => if size < 0 {
            Err(CodecError::InvalidLength)
        } else if s.len() - n < size {
            Err(CodecError::EndOfBuffer)
        } else {
            match parse_header_fields(s.skip(n as int), size) {
                Err(e) => Err(e),
                Ok((header, m)) => if m > size {
                    Err(CodecError::InvalidLength)
                } else {
                    Ok((RequestModel { header, body: s.subrange((n + m) as int, n + size) }, (n + size) as nat))
                },
            }
        },
    }
}

/// A request frame: its header and its body.
#[derive(Debug)]
pub struct Request {
    pub header: RequestHeader,
    pub body: Vec<u8>,
}

impl View for Request {
    type V = RequestModel;

    open spec fn view(&self) -> RequestModel {
        RequestModel { header: self.header@, body: self.body@ }
    }
}

impl RequestHeader {
    /// Reads the header fields after a frame size of `message_size`.
    #[verifier::rlimit(40)]
    pub fn deserialize(buf: &[u8], pos: usize, message_size: i32) -> (r: Result<(RequestHeader, usize), CodecError>)
        requires
            pos <= buf@.len(),
        ensures
            match r {
                Ok((h, p)) => pos < p <= buf@.len() && parse_header_fields(buf@.skip(pos as int), message_size) == Ok::<(RequestHeaderModel, nat), CodecError>((h@, (p - pos) as nat)),
                Err(e) => parse_header_fields(buf@.skip(pos as int), message_size) == Err::<(RequestHeaderModel, nat), CodecError>(e),
            },
            r matches Ok((h, _)) ==> h.message_size == message_size,
    {
        reveal(parse_header_fields);
        let (request_api_key, p0) = get_i16(buf, pos)?;
        assert(buf@.skip(p0 as int) =~= buf@.skip(pos as int).skip(p0 - pos));
        let (request_api_version, p1) = get_i16(buf, p0)?;
        assert(buf@.skip(p1 as int) =~= buf@.skip(p0 as int).skip(p1 - p0));
        let (correlation_id, p2) = get_i32(buf, p1)?;
        assert(buf@.skip(p2 as int) =~= buf@.skip(p1 as int).skip(p2 - p1));
        let (client_id, p3) = ClientId::deserialize(buf, p2)?;
        assert(buf@.skip(p3 as int) =~= buf@.skip(p2 as int).skip(p3 - p2));
        let p4 = skip_tag_buffer(buf, p3)?;
        let header = RequestHeader { message_size, request_api_key, request_api_version, correlation_id, client_id };
        Ok((header, p4))
    }
}

impl Request {
    /// Reads a request frame at `pos`. On success the frame took exactly its
    /// `message_size` plus four bytes.
    pub fn deserialize(buf: &[u8], pos: usize) -> (r: Result<(Request, usize), CodecError>)
        requires
            pos <= buf@.len(),
        ensures
            match r {
                Ok((q, p)) => pos < p <= buf@.len() && parse_request(buf@.skip(pos as int)) == Ok::<(RequestModel, nat), CodecError>((q@, (p - pos) as nat)),
                Err(e) => parse_request(buf@.skip(pos as int)) == Err::<(RequestModel, nat), CodecError>(e),
            },
            r matches Ok((q, p)) ==> p - pos == q.header.message_size + 4,
    {
        let ghost s = buf@.skip(pos as int);
        let (size, p0) = get_i32(buf, pos)?;
        if size < 0 {
            return Err(CodecError::InvalidLength);
        }
        if buf.len() - p0 < size as usize {
            return Err(CodecError::EndOfBuffer);
        }
        assert(buf@.skip(p0 as int) =~= s.skip(p0 - pos));
        let (header, p1) = RequestHeader::deserialize(buf, p0, size)?;
        if p1 - p0 > size as usize {
            return Err(CodecError::InvalidLength);
        }
        let end = p0 + size as usize;
        let (body, _) = get_bytes(buf, p1, end - p1)?;
        assert(body@ =~= s.subrange(p1 - pos, end - pos));
        Ok((Request { header, body }, end))
    }
}

} // verus!
