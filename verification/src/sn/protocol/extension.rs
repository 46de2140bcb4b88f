use vstd::prelude::*;
use crate::codec::{
    append_bytes, decode_u32, decode_u8, encode_u32, encode_u8, lemma_be32_roundtrip,
    lemma_from_be_prefix, spec_be32, spec_from_be32,
};
use crate::error::{P2pError, P2pErrorCode, P2pResult};

verus! {

/// Version of the extension envelope.
pub const SN_EXTENSION_VERSION: u8 = 1;

/// Magic (`RSNP`) of the NAT-profile extension of a report.
pub const REPORT_SN_EXTENSION_MAGIC: u32 = 0x5253_4E50;

/// Magic (`RSNR`) of the probe-control extension of a report.
pub const REPORT_SN_PROBE_RESULT_EXTENSION_MAGIC: u32 = 0x5253_4E52;

/// Magic (`RSRP`) of the probe-ports extension of a report response.
pub const REPORT_SN_RESP_EXTENSION_MAGIC: u32 = 0x5253_5250;

/// Magic (`RSRD`) of the probe-directive extension of a report response.
pub const REPORT_SN_RESP_PROBE_DIRECTIVE_EXTENSION_MAGIC: u32 = 0x5253_5244;

/// Magic (`SQRP`) of the NAT-profile extension of a query response.
pub const SN_QUERY_RESP_EXTENSION_MAGIC: u32 = 0x5351_5250;

/// Magic (`SDRP`) of the NAT-profile extension of a detail response.
pub const SN_DETAIL_RESP_EXTENSION_MAGIC: u32 = 0x5344_5250;

/// Magic (`SQPV`) of the protocol-version extension of a query response.
pub const SN_QUERY_RESP_PROTOCOL_VERSION_EXTENSION_MAGIC: u32 = 0x5351_5056;

/// Magic (`SDPV`) of the protocol-version extension of a detail response.
pub const SN_DETAIL_RESP_PROTOCOL_VERSION_EXTENSION_MAGIC: u32 = 0x5344_5056;

/// Magic (`SCAL`) of the NAT-context extension of a call.
pub const SN_CALL_EXTENSION_MAGIC: u32 = 0x5343_414C;

/// Magic (`SCLD`) of the NAT-context extension of a called notification.
pub const SN_CALLED_EXTENSION_MAGIC: u32 = 0x5343_4C44;

/// Bytes before an extension's payload: magic, version and payload length.
pub const SN_EXTENSION_HEADER_LEN: usize = 9;

/// What the bytes after a message's legacy part hold for one extension.
#[derive(Clone, Copy, Debug, PartialEq, Eq, Structural)]
pub enum ExtensionFrame {
    /// The bytes do not start with this extension: they are left untouched
    /// for the enclosing decoder.
    Absent,
    /// The extension is truncated or of another version: it yields nothing,
    /// and the bytes before `rest` belong to it.
    Skipped { rest: usize },
    /// The extension's payload is the bytes `start..end`; what follows
    /// starts at `end`.
    Payload { start: usize, end: usize },
}

impl ExtensionFrame {
    pub open spec fn spec_rest(self) -> usize {
        match self {
            ExtensionFrame::Absent => 0,
            ExtensionFrame::Skipped { rest } => rest,
            ExtensionFrame::Payload { end, .. } => end,
        }
    }

    /// Where the bytes after this extension start.
    pub fn rest(&self) -> (r: usize)
        ensures
            r == self.spec_rest(),
    {
        match self {
            ExtensionFrame::Absent => 0,
            ExtensionFrame::Skipped { rest } => *rest,
            ExtensionFrame::Payload { end, .. } => *end,
        }
    }
}

/// The bytes of an extension that carries `payload` under `magic`.
pub open spec fn spec_extension_bytes(payload: Seq<u8>, magic: u32) -> Seq<u8> {
    spec_be32(magic) + seq![SN_EXTENSION_VERSION] + spec_be32(payload.len() as u32) + payload
}

/// How `b` reads as the extension `magic`: absent unless it starts with the
/// magic; once it does, the rest belongs to the extension, which is skipped
/// whole when its header or payload is cut short, skipped over its payload
/// when of another version, and read otherwise.
pub open spec fn spec_extension_decode(b: Seq<u8>, magic: u32) -> ExtensionFrame {
    if b.len() < 4 || spec_from_be32(b) != magic {
        ExtensionFrame::Absent
    } else if b.len() < SN_EXTENSION_HEADER_LEN {
        ExtensionFrame::Skipped { rest: b.len() as usize }
    } else {
        let n = spec_from_be32(b.subrange(5, 9));
        if b.len() - SN_EXTENSION_HEADER_LEN < n {
            ExtensionFrame::Skipped { rest: b.len() as usize }
        } else if b[4] != SN_EXTENSION_VERSION {
            ExtensionFrame::Skipped { rest: (SN_EXTENSION_HEADER_LEN + n) as usize }
        } else {
            ExtensionFrame::Payload {
                start: SN_EXTENSION_HEADER_LEN,
                end: (SN_EXTENSION_HEADER_LEN + n) as usize,
            }
        }
    }
}

/// Reading an extension never reaches past the bytes read: its payload lies
/// within them, and what follows starts within them.
pub proof fn lemma_extension_decode_bounds(b: Seq<u8>, magic: u32)
    requires
        b.len() <= usize::MAX,
    ensures
        spec_extension_decode(b, magic).spec_rest() <= b.len(),
        spec_extension_decode(b, magic) matches ExtensionFrame::Payload { start, end } ==> start
            <= end <= b.len(),
{
}

/// Bytes an optional extension takes on the wire, given its payload length.
pub fn extension_measure(payload_len: Option<usize>) -> (r: usize)
    requires
        payload_len matches Some(n) ==> n + SN_EXTENSION_HEADER_LEN <= usize::MAX,
    ensures
        r == (match payload_len {
            Some(n) => n + SN_EXTENSION_HEADER_LEN,
            None => 0,
        }),
{
    match payload_len {
        Some(n) => SN_EXTENSION_HEADER_LEN + n,
        None => 0,
    }
}

/// Appends the extension `magic` carrying `payload`, when there is one; a
/// payload too long for its 32-bit length field is refused.
pub fn extension_encode(payload: Option<&[u8]>, magic: u32, out: &mut Vec<u8>) -> (r: P2pResult<()>)
    ensures
        payload is None ==> r is Ok && final(out)@ == old(out)@,
        payload matches Some(p) ==> (p@.len() > u32::MAX ==> r == Err::<(), P2pError>(
            P2pError { code: P2pErrorCode::OutOfLimit },
        ) && final(out)@ == old(out)@) && (p@.len() <= u32::MAX ==> r is Ok && final(out)@ == old(
            out,
        )@ + spec_extension_bytes(p@, magic)),
{
    let p = match payload {
        None => {
            return Ok(());
        },
        Some(p) => p,
    };
    if p.len() > 0xffff_ffffusize {
        return Err(P2pError::new(P2pErrorCode::OutOfLimit));
    }
    let ghost start = out@;
    let len = p.len() as u32;
    let m = encode_u32(magic);
    append_bytes(out, m.as_slice());
    let v = encode_u8(SN_EXTENSION_VERSION);
    append_bytes(out, v.as_slice());
    let l = encode_u32(len);
    append_bytes(out, l.as_slice());
    append_bytes(out, p);
    assert(out@ =~= start + spec_extension_bytes(p@, magic));
    Ok(())
}

/// Reads the extension `magic` at the start of `buf` (see
/// [`spec_extension_decode`]).
pub fn extension_decode(buf: &[u8], magic: u32) -> (r: ExtensionFrame)
    ensures
        r == spec_extension_decode(buf@, magic),
{
    let n = buf.len();
    if n < 4 {
        return ExtensionFrame::Absent;
    }
    let tail_magic = match decode_u32(buf) {
        Some(v) => v,
        None => {
            return ExtensionFrame::Absent;
        },
    };
    if tail_magic != magic {
        return ExtensionFrame::Absent;
    }
    if n < SN_EXTENSION_HEADER_LEN {
        return ExtensionFrame::Skipped { rest: n };
    }
    let version_part = &buf[4..5];
    let version = match decode_u8(version_part) {
        Some(v) => v,
        None => {
            return ExtensionFrame::Skipped { rest: n };
        },
    };
    assert(version_part@[0] == buf@[4]);
    let len_part = &buf[5..9];
    assert(len_part@ =~= buf@.subrange(5, 9));
    let payload_len = match decode_u32(len_part) {
        Some(v) => v,
        None => {
            return ExtensionFrame::Skipped { rest: n };
        },
    };
    let plen = payload_len as usize;
    if n - SN_EXTENSION_HEADER_LEN < plen {
        return ExtensionFrame::Skipped { rest: n };
    }
    if version != SN_EXTENSION_VERSION {
        return ExtensionFrame::Skipped { rest: SN_EXTENSION_HEADER_LEN + plen };
    }
    ExtensionFrame::Payload { start: SN_EXTENSION_HEADER_LEN, end: SN_EXTENSION_HEADER_LEN + plen }
}

/// What an extension yields once its payload was decoded: `decoded` is the
/// value read from the payload and how many payload bytes that used. There
/// is a value only when the frame had a payload and the decode used all of
/// it.
pub fn extension_value<T>(frame: ExtensionFrame, decoded: Option<(T, usize)>) -> (r: Option<T>)
    ensures
        r is Some <==> (frame is Payload && decoded is Some && decoded.unwrap().1 == frame->end
            - frame->start),
        r matches Some(v) ==> v == decoded.unwrap().0,
{
    match frame {
        ExtensionFrame::Payload { start, end } => match decoded {
            Some((v, used)) => {
                if end >= start && used == end - start {
                    Some(v)
                } else {
                    None
                }
            },
            None => None,
        },
        _ => None,
    }
}

/// A message decoded from a whole buffer: `decoded` is the value read from
/// `len` bytes and how many it used; bytes left over make the message
/// invalid.
pub fn strict_rendezvous_decode<T>(decoded: P2pResult<(T, usize)>, len: usize) -> (r: P2pResult<T>)
    ensures
        decoded matches Err(e) ==> r == Err::<T, P2pError>(e),
        decoded matches Ok(d) ==> (d.1 == len ==> r == Ok::<T, P2pError>(d.0)) && (d.1 != len
            ==> r == Err::<T, P2pError>(P2pError { code: P2pErrorCode::InvalidData })),
{
    match decoded {
        Err(e) => Err(e),
        Ok((v, used)) => {
            if used == len {
                Ok(v)
            } else {
                Err(P2pError::new(P2pErrorCode::InvalidData))
            }
        },
    }
}

/// An extension reads back as its own payload, whatever follows it, and
/// what follows starts right after it.
pub proof fn lemma_extension_roundtrip(payload: Seq<u8>, magic: u32, tail: Seq<u8>)
    requires
        payload.len() <= u32::MAX,
    ensures
        ({
            let b = spec_extension_bytes(payload, magic) + tail;
            let n = payload.len();
            &&& spec_extension_decode(b, magic) == ExtensionFrame::Payload {
                start: SN_EXTENSION_HEADER_LEN,
                end: (SN_EXTENSION_HEADER_LEN + n) as usize,
            }
            &&& b.subrange(SN_EXTENSION_HEADER_LEN as int, SN_EXTENSION_HEADER_LEN + n) == payload
            &&& b.subrange(SN_EXTENSION_HEADER_LEN + n, b.len() as int) == tail
        }),
{
    let n: int = payload.len() as int;
    let b = spec_extension_bytes(payload, magic) + tail;
    lemma_be32_roundtrip(magic);
    lemma_be32_roundtrip(n as u32);
    assert(b.subrange(0, 4) =~= spec_be32(magic).subrange(0, 4));
    lemma_from_be_prefix(b, spec_be32(magic));
    assert(b.subrange(5, 9) =~= spec_be32(n as u32));
    assert(b[4] == SN_EXTENSION_VERSION);
    assert(b.subrange(9, 9 + n) =~= payload);
    assert(b.subrange(9 + n, b.len() as int) =~= tail);
}

/// Bytes that start with another extension are left untouched: reading
/// them as the extension `other` finds nothing there.
pub proof fn lemma_other_extension_absent(payload: Seq<u8>, magic: u32, other: u32, tail: Seq<u8>)
    requires
        magic != other,
    ensures
        spec_extension_decode(spec_extension_bytes(payload, magic) + tail, other)
            == ExtensionFrame::Absent,
{
    let b = spec_extension_bytes(payload, magic) + tail;
    lemma_be32_roundtrip(magic);
    assert(b.subrange(0, 4) =~= spec_be32(magic).subrange(0, 4));
    lemma_from_be_prefix(b, spec_be32(magic));
}

} // verus!
