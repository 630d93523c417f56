//! The APIs this broker answers, its error codes, and the small bodies and
//! strings shared by requests and responses.
use vstd::prelude::*;
use crate::wire::{CodecError, get_i16, get_bytes, parse_i16, text_of, i16_bytes, put_i16, lossy_text};

verus! {

/// An API of the protocol, by its key.
#[derive(Debug, Clone, Copy, PartialEq, Eq, Structural)]
pub enum Api {
    /// A key this broker does not answer.
    Invalid,
    ApiVersions,
    Fetch,
    DescribeTopicPartitions,
}

/// The API that a request key names.
pub open spec fn api_of(key: i16) -> Api {
    if key == 18 {
        Api::ApiVersions
    } else if key == 1 {
        Api::Fetch
    } else if key == 75 {
        Api::DescribeTopicPartitions
    } else {
        Api::Invalid
    }
}

impl Api {
    /// The key of the API on the wire.
    pub open spec fn spec_key(self) -> i16 {
        match self {
            Api::Invalid => -1i16,
            Api::ApiVersions => 18,
            Api::Fetch => 1,
            Api::DescribeTopicPartitions => 75,
        }
    }

    /// The lowest and highest version answered.
    pub open spec fn spec_versions(self) -> (i16, i16) {
        match self {
            Api::Invalid => (0, 0),
            Api::ApiVersions => (0, 4),
            Api::Fetch => (0, 16),
            Api::DescribeTopicPartitions => (0, 0),
        }
    }

    /// The key of the API on the wire.
    pub fn key(&self) -> (r: i16)
        ensures
            r == self.spec_key(),
    {
        match self {
            Api::Invalid => -1,
            Api::ApiVersions => 18,
            Api::Fetch => 1,
            Api::DescribeTopicPartitions => 75,
        }
    }

    /// The APIs answered, in the order `ApiVersions` lists them.
    pub fn get_vec() -> (r: Vec<Api>)
        ensures
            r@ == seq![Api::ApiVersions, Api::Fetch, Api::DescribeTopicPartitions],
    {
        let r = vec![Api::ApiVersions, Api::Fetch, Api::DescribeTopicPartitions];
        assert(r@ =~= seq![Api::ApiVersions, Api::Fetch, Api::DescribeTopicPartitions]);
        r
    }

    /// The lowest and highest version answered.
    pub fn versions(&self) -> (r: (i16, i16))
        ensures
            r == self.spec_versions(),
    {
        match self {
            Api::Invalid => (0, 0),
            Api::ApiVersions => (0, 4),
            Api::Fetch => (0, 16),
            Api::DescribeTopicPartitions => (0, 0),
        }
    }
}

impl From<i16> for Api {
    fn from(value: i16) -> (r: Api)
        ensures
            r == api_of(value),
    {
        if value == 18 {
            Api::ApiVersions
        } else if value == 1 {
            Api::Fetch
        } else if value == 75 {
            Api::DescribeTopicPartitions
        } else {
            Api::Invalid
        }
    }
}

impl vstd::std_specs::convert::FromSpecImpl<i16> for Api {
    open spec fn obeys_from_spec() -> bool {
        true
    }

    open spec fn from_spec(v: i16) -> Api {
        api_of(v)
    }
}

/// An error code of the protocol.
#[derive(Debug, Clone, Copy, PartialEq, Eq, Structural)]
pub enum ErrorCode {
    NoError,
    UnknownTopicOrPartition,
    Unsupported,
    UnknownTopicId,
}

impl ErrorCode {
    pub open spec fn spec_code(self) -> i16 {
        match self {
            ErrorCode::NoError => 0,
            ErrorCode::UnknownTopicOrPartition => 3,
            ErrorCode::Unsupported => 35,
            ErrorCode::UnknownTopicId => 100,
        }
    }

    /// The code on the wire.
    pub fn code(&self) -> (r: i16)
        ensures
            r == self.spec_code(),
    {
        match self {
            ErrorCode::NoError => 0,
            ErrorCode::UnknownTopicOrPartition => 3,
            ErrorCode::Unsupported => 35,
            ErrorCode::UnknownTopicId => 100,
        }
    }
}

/// Reads a `NULLABLE_STRING`: an `INT16` length, `-1` for null, then the
/// bytes. Any other negative length is refused.
pub open spec fn parse_nullable_string(s: Seq<u8>) -> Result<(Option<Seq<char>>, nat), CodecError> {
    match parse_i16(s) {
        Err(e) => Err(e),
        Ok((len, n)) => if len == -1 {
            Ok((None, n))
        } else if len < 0 {
            Err(CodecError::InvalidLength)
        } else if s.len() - n < len {
            Err(CodecError::EndOfBuffer)
        } else {
            Ok((Some(text_of(s.subrange(n as int, n + len))), n + len as nat))
        },
    }
}

/// The client id of a request header: a nullable string.
#[derive(Debug)]
pub struct ClientId {
    pub id: Option<String>,
}

impl View for ClientId {
    type V = Option<Seq<char>>;

    open spec fn view(&self) -> Option<Seq<char>> {
        match self.id {
            Some(s) => Some(s@),
            None => None,
        }
    }
}

impl ClientId {
    /// Reads a client id at `pos`.
    pub fn deserialize(buf: &[u8], pos: usize) -> (r: Result<(ClientId, usize), CodecError>)
        requires
            pos <= buf@.len(),
        ensures
            match r {
                Ok((v, p)) => pos < p <= buf@.len() && parse_nullable_string(buf@.skip(pos as int)) == Ok::<(Option<Seq<char>>, nat), CodecError>((v@, (p - pos) as nat)),
                Err(e) => parse_nullable_string(buf@.skip(pos as int)) == Err::<(Option<Seq<char>>, nat), CodecError>(e),
            },
    {
        let (len, p) = get_i16(buf, pos)?;
        if len == -1 {
            return Ok((ClientId { id: None }, p));
        }
        if len < 0 {
            return Err(CodecError::InvalidLength);
        }
        if buf.len() - p < len as usize {
            return Err(CodecError::EndOfBuffer);
        }
        let (bytes, q) = get_bytes(buf, p, len as usize)?;
        assert(buf@.skip(pos as int).subrange((p - pos) as int, (p - pos) + len) =~= bytes@);
        let text = lossy_text(bytes.as_slice());
        Ok((ClientId { id: Some(text) }, q))
    }
}

/// A request body that is not read.
pub struct EmptyRequestBody;

impl EmptyRequestBody {
    /// Reads nothing: the position stays.
    pub fn deserialize(_buf: &[u8], pos: usize) -> (r: (EmptyRequestBody, usize))
        ensures
            r.1 == pos,
    {
        (EmptyRequestBody, pos)
    }
}

/// A response body of an error code alone.
#[derive(Debug)]
pub struct EmptyResponseBody {
    pub error_code: ErrorCode,
}

impl EmptyResponseBody {
    /// Appends the error code as an `INT16`.
    pub fn serialize(&self, out: &mut Vec<u8>)
        ensures
            final(out)@ == old(out)@ + i16_bytes(self.error_code.spec_code()),
    {
        put_i16(out, self.error_code.code());
    }
}

} // verus!
