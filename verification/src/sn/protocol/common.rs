use vstd::prelude::*;
use crate::codec::{
    append_bytes, decode_u16, decode_u8, encode_u16, lemma_be16_roundtrip, lemma_from_be_prefix,
    spec_be16, spec_from_be16,
};
use crate::error::{P2pError, P2pErrorCode, P2pResult};

verus! {

/// Largest datagram payload the SN protocol plans for.
pub const MTU: usize = 1472;

/// Largest payload over a stream.
pub const MTU_LARGE: usize = 0xFFFF;

/// Command carried by an SN package.
#[derive(Clone, Copy, Debug, PartialEq, Eq, Structural)]
pub enum PackageCmdCode {
    SnCall,
    SnCallResp,
    SnCalled,
    SnCalledResp,
    ReportSn,
    ReportSnResp,
    SnQuery,
    SnQueryResp,
}

/// Wire value of a command code.
pub open spec fn spec_cmd_code_value(c: PackageCmdCode) -> u8 {
    match c {
        PackageCmdCode::SnCall => 0x20,
        PackageCmdCode::SnCallResp => 0x21,
        PackageCmdCode::SnCalled => 0x22,
        PackageCmdCode::SnCalledResp => 0x23,
        PackageCmdCode::ReportSn => 0x24,
        PackageCmdCode::ReportSnResp => 0x25,
        PackageCmdCode::SnQuery => 0x26,
        PackageCmdCode::SnQueryResp => 0x27,
    }
}

impl PackageCmdCode {
    pub fn code(&self) -> (r: u8)
        ensures
            r == spec_cmd_code_value(*self),
    {
        match self {
            PackageCmdCode::SnCall => 0x20,
            PackageCmdCode::SnCallResp => 0x21,
            PackageCmdCode::SnCalled => 0x22,
            PackageCmdCode::SnCalledResp => 0x23,
            PackageCmdCode::ReportSn => 0x24,
            PackageCmdCode::ReportSnResp => 0x25,
            PackageCmdCode::SnQuery => 0x26,
            PackageCmdCode::SnQueryResp => 0x27,
        }
    }

    /// Whether the command lies in the SN range, `SnCall` to `SnQueryResp`.
    pub fn is_sn(&self) -> (r: bool)
        ensures
            r == (0x20 <= spec_cmd_code_value(*self) <= 0x27),
    {
        let v = self.code();
        0x20 <= v && v <= 0x27
    }

    /// The command with wire value `v`; any other value is an invalid parameter.
    pub fn try_from(v: u8) -> (r: P2pResult<PackageCmdCode>)
        ensures
            r is Ok <==> 0x20 <= v <= 0x27,
            r matches Ok(c) ==> spec_cmd_code_value(c) == v,
            r matches Err(e) ==> e.code == P2pErrorCode::InvalidParam,
    {
        match v {
            0x20u8 => Ok(PackageCmdCode::SnCall),
            0x21u8 => Ok(PackageCmdCode::SnCallResp),
            0x22u8 => Ok(PackageCmdCode::SnCalled),
            0x23u8 => Ok(PackageCmdCode::SnCalledResp),
            0x24u8 => Ok(PackageCmdCode::ReportSn),
            0x25u8 => Ok(PackageCmdCode::ReportSnResp),
            0x26u8 => Ok(PackageCmdCode::SnQuery),
            0x27u8 => Ok(PackageCmdCode::SnQueryResp),
            _ => Err(P2pError::new(P2pErrorCode::InvalidParam)),
        }
    }
}

/// Reading the wire value of a command code gives the command back.
pub proof fn lemma_cmd_code_roundtrip(c: PackageCmdCode)
    ensures
        0x20 <= spec_cmd_code_value(c) <= 0x27,
        forall|d: PackageCmdCode| spec_cmd_code_value(d) == spec_cmd_code_value(c) ==> d == c,
{
}

pub struct PackageHeaderView {
    pub pkg_len: u16,
    pub version: u8,
    pub cmd_code: u8,
}

/// Header of an SN package: body length, protocol version and command code.
pub struct PackageHeader {
    pkg_len: u16,
    version: u8,
    cmd_code: u8,
}

impl View for PackageHeader {
    type V = PackageHeaderView;

    closed spec fn view(&self) -> PackageHeaderView {
        PackageHeaderView { pkg_len: self.pkg_len, version: self.version, cmd_code: self.cmd_code }
    }
}

/// Wire form of a header: the length big-endian, then version and command.
pub open spec fn spec_header_bytes(h: PackageHeaderView) -> Seq<u8> {
    spec_be16(h.pkg_len) + seq![h.version, h.cmd_code]
}

impl PackageHeader {
    pub fn new(version: u8, cmd_code: PackageCmdCode, pkg_len: u16) -> (r: PackageHeader)
        ensures
            r@ == (PackageHeaderView { pkg_len, version, cmd_code: spec_cmd_code_value(cmd_code) }),
    {
        PackageHeader { pkg_len, version, cmd_code: cmd_code.code() }
    }

    pub fn cmd_code(&self) -> (r: P2pResult<PackageCmdCode>)
        ensures
            r is Ok <==> 0x20 <= self@.cmd_code <= 0x27,
            r matches Ok(c) ==> spec_cmd_code_value(c) == self@.cmd_code,
            r matches Err(e) ==> e.code == P2pErrorCode::InvalidParam,
    {
        PackageCmdCode::try_from(self.cmd_code)
    }

    pub fn pkg_len(&self) -> (r: u16)
        ensures
            r == self@.pkg_len,
    {
        self.pkg_len
    }

    pub fn version(&self) -> (r: u8)
        ensures
            r == self@.version,
    {
        self.version
    }

    pub fn set_pkg_len(&mut self, pkg_len: u16)
        ensures
            final(self)@ == (PackageHeaderView { pkg_len, ..old(self)@ }),
    {
        self.pkg_len = pkg_len;
    }

    /// Encoded size of a header.
    pub fn raw_bytes() -> (r: usize)
        ensures
            r == 4,
    {
        4
    }

    pub fn encode(&self) -> (r: Vec<u8>)
        ensures
            r@ == spec_header_bytes(self@),
    {
        let mut out = encode_u16(self.pkg_len);
        out.push(self.version);
        out.push(self.cmd_code);
        assert(out@ =~= spec_header_bytes(self@));
        out
    }

    /// Reads a header from the front of `buf`; returns it with the number of
    /// bytes it took. A buffer shorter than a header is out of limit.
    pub fn decode(buf: &[u8]) -> (r: P2pResult<(PackageHeader, usize)>)
        ensures
            r is Ok <==> buf@.len() >= 4,
            r matches Ok((h, n)) ==> n == 4 && h@ == (PackageHeaderView {
                pkg_len: spec_from_be16(buf@),
                version: buf@[2],
                cmd_code: buf@[3],
            }),
            r matches Err(e) ==> e.code == P2pErrorCode::OutOfLimit,
    {
        if buf.len() < 4 {
            return Err(P2pError::new(P2pErrorCode::OutOfLimit));
        }
        let pkg_len = match decode_u16(buf) {
            Some(v) => v,
            None => {
                return Err(P2pError::new(P2pErrorCode::OutOfLimit));
            },
        };
        let version = match decode_u8(&buf[2..3]) {
            Some(v) => v,
            None => {
                return Err(P2pError::new(P2pErrorCode::OutOfLimit));
            },
        };
        let cmd_code = match decode_u8(&buf[3..4]) {
            Some(v) => v,
            None => {
                return Err(P2pError::new(P2pErrorCode::OutOfLimit));
            },
        };
        Ok((PackageHeader { pkg_len, version, cmd_code }, 4))
    }
}

/// A header reads back from its own encoding.
pub proof fn lemma_header_roundtrip(h: PackageHeaderView)
    ensures
        spec_header_bytes(h).len() == 4,
        spec_from_be16(spec_header_bytes(h)) == h.pkg_len,
        spec_header_bytes(h)[2] == h.version,
        spec_header_bytes(h)[3] == h.cmd_code,
{
    lemma_be16_roundtrip(h.pkg_len);
    lemma_from_be_prefix(spec_header_bytes(h), spec_be16(h.pkg_len));
    assert(spec_header_bytes(h).subrange(0, 2) =~= spec_be16(h.pkg_len).subrange(0, 2));
}

/// An SN package: header and body.
pub struct Package<T> {
    header: PackageHeader,
    body: T,
}

impl<T> Package<T> {
    pub closed spec fn spec_header(&self) -> PackageHeaderView {
        self.header@
    }

    pub closed spec fn spec_body(&self) -> T {
        self.body
    }

    /// A package of `body`, whose encoding measured `body_len` bytes; the
    /// header records that length in 16 bits.
    pub fn new(version: u8, cmd_code: PackageCmdCode, body: T, body_len: usize) -> (r: Package<T>)
        ensures
            r.spec_header() == (PackageHeaderView {
                pkg_len: body_len as u16,
                version,
                cmd_code: spec_cmd_code_value(cmd_code),
            }),
            r.spec_body() == body,
    {
        Package { header: PackageHeader::new(version, cmd_code, body_len as u16), body }
    }

    pub fn cmd_code(&self) -> (r: P2pResult<PackageCmdCode>)
        ensures
            r is Ok <==> 0x20 <= self.spec_header().cmd_code <= 0x27,
            r matches Ok(c) ==> spec_cmd_code_value(c) == self.spec_header().cmd_code,
    {
        self.header.cmd_code()
    }

    pub fn body(&self) -> (r: &T)
        ensures
            *r == self.spec_body(),
    {
        &self.body
    }
}

} // verus!
