//! The fixed eight bytes that open every request and response.
use vstd::prelude::*;
use crate::error::ParseError;
use crate::wire::{get_u16, get_u32, put_u16, put_u32, spec_u16_at, spec_u16_be, spec_u32_at, spec_u32_be};

verus! {

/// Protocol version, as the two bytes that lead the header.
#[derive(Clone, Copy, Debug, PartialEq, Eq, Structural)]
pub struct IppVersion {
    pub major: u8,
    pub minor: u8,
}

impl IppVersion {
    pub fn new(major: u8, minor: u8) -> (v: IppVersion)
        ensures
            v == (IppVersion { major, minor }),
    {
        IppVersion { major, minor }
    }

    /// Version 1.0.
    pub fn v1_0() -> (v: IppVersion)
        ensures
            v == (IppVersion { major: 1, minor: 0 }),
    {
        IppVersion { major: 1, minor: 0 }
    }

    /// Version 1.1.
    pub fn v1_1() -> (v: IppVersion)
        ensures
            v == (IppVersion { major: 1, minor: 1 }),
    {
        IppVersion { major: 1, minor: 1 }
    }

    /// Version 2.0.
    pub fn v2_0() -> (v: IppVersion)
        ensures
            v == (IppVersion { major: 2, minor: 0 }),
    {
        IppVersion { major: 2, minor: 0 }
    }

    /// Version 2.1.
    pub fn v2_1() -> (v: IppVersion)
        ensures
            v == (IppVersion { major: 2, minor: 1 }),
    {
        IppVersion { major: 2, minor: 1 }
    }

    /// Version 2.2.
    pub fn v2_2() -> (v: IppVersion)
        ensures
            v == (IppVersion { major: 2, minor: 2 }),
    {
        IppVersion { major: 2, minor: 2 }
    }
}

/// Version, operation or status code, and request id. For a request `code` is
/// an operation code, for a response a status code; neither is interpreted
/// here, so that codes this library does not know pass through unchanged.
#[derive(Clone, Copy, Debug, PartialEq, Eq, Structural)]
pub struct IppHeader {
    pub version: IppVersion,
    pub code: u16,
    pub request_id: u32,
}

impl IppHeader {
    /// The eight bytes of a header: version, then the code and the request id,
    /// each high byte first.
    pub open spec fn spec_bytes(self) -> Seq<u8> {
        seq![self.version.major, self.version.minor] + spec_u16_be(self.code) + spec_u32_be(
            self.request_id,
        )
    }

    /// What a byte sequence decodes to as a header: its first eight bytes
    /// read field by field, or `TruncatedHeader` where there are fewer.
    pub open spec fn spec_parse(s: Seq<u8>) -> Result<IppHeader, ParseError> {
        if s.len() < 8 {
            Err(ParseError::TruncatedHeader)
        } else {
            Ok(
                IppHeader {
                    version: IppVersion { major: s[0], minor: s[1] },
                    code: spec_u16_at(s, 2),
                    request_id: spec_u32_at(s, 4),
                },
            )
        }
    }

    pub fn new(version: IppVersion, code: u16, request_id: u32) -> (h: IppHeader)
        ensures
            h == (IppHeader { version, code, request_id }),
    {
        IppHeader { version, code, request_id }
    }

    /// Encodes the header.
    pub fn to_bytes(&self) -> (out: Vec<u8>)
        ensures
            out@ == self.spec_bytes(),
            out@.len() == 8,
    {
        let mut out: Vec<u8> = Vec::new();
        out.push(self.version.major);
        out.push(self.version.minor);
        put_u16(&mut out, self.code);
        put_u32(&mut out, self.request_id);
        assert(out@ =~= self.spec_bytes());
        out
    }

    /// Decodes the header that opens `data`. Fails only where `data` is
    /// shorter than a header; bytes behind the header are not looked at.
    pub fn from_bytes(data: &[u8]) -> (r: Result<IppHeader, ParseError>)
        ensures
            r == Self::spec_parse(data@),
    {
        if data.len() < 8 {
            Err(ParseError::TruncatedHeader)
        } else {
            Ok(
                IppHeader {
                    version: IppVersion { major: data[0], minor: data[1] },
                    code: get_u16(data, 2),
                    request_id: get_u32(data, 4),
                },
            )
        }
    }

    /// Decoding the bytes of a header, whatever follows them, gives the
    /// header back.
    pub proof fn lemma_roundtrip(self, rest: Seq<u8>)
        ensures
            self.spec_bytes().len() == 8,
            Self::spec_parse(self.spec_bytes() + rest) == Ok::<IppHeader, ParseError>(self),
    {
        let s = self.spec_bytes() + rest;
        assert(s[0] == self.version.major);
        assert(s[1] == self.version.minor);
        assert(s[2] == spec_u16_be(self.code)[0]);
        assert(s[3] == spec_u16_be(self.code)[1]);
        assert(s[4] == spec_u32_be(self.request_id)[0]);
        assert(s[5] == spec_u32_be(self.request_id)[1]);
        assert(s[6] == spec_u32_be(self.request_id)[2]);
        assert(s[7] == spec_u32_be(self.request_id)[3]);
    }
}

} // verus!
