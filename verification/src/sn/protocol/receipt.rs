use vstd::prelude::*;
use crate::codec::{
    append_bytes, decode_u16, decode_u32, decode_u64, encode_u16, encode_u32, encode_u64,
    lemma_be16_roundtrip, lemma_be32_roundtrip, lemma_be64_roundtrip, lemma_from_be_prefix,
    spec_be16, spec_be32, spec_be64, spec_from_be16, spec_from_be32, spec_from_be64,
};
use crate::error::{P2pError, P2pErrorCode, P2pResult};
use crate::time::{min_bucky_time, spec_min_bucky_time};
use crate::types::{P2pSignature, Timestamp};

verus! {

/// How an SN grades the service it gave a client.
#[derive(Clone, Copy, Debug, PartialEq, Eq, Structural)]
pub enum SnServiceGrade {
    Unrated,
    Discard,
    Passable,
    Normal,
    Fine,
    Wonderfull,
}

pub open spec fn spec_grade_value(g: SnServiceGrade) -> u8 {
    match g {
        SnServiceGrade::Unrated => 0,
        SnServiceGrade::Discard => 1,
        SnServiceGrade::Passable => 2,
        SnServiceGrade::Normal => 3,
        SnServiceGrade::Fine => 4,
        SnServiceGrade::Wonderfull => 5,
    }
}

impl SnServiceGrade {
    pub fn value(&self) -> (r: u8)
        ensures
            r == spec_grade_value(*self),
    {
        match self {
            SnServiceGrade::Unrated => 0,
            SnServiceGrade::Discard => 1,
            SnServiceGrade::Passable => 2,
            SnServiceGrade::Normal => 3,
            SnServiceGrade::Fine => 4,
            SnServiceGrade::Wonderfull => 5,
        }
    }

    /// A grade of `Passable` or better accepts the service.
    pub fn is_accept(&self) -> (r: bool)
        ensures
            r == (spec_grade_value(*self) >= 2),
    {
        self.value() >= 2
    }

    pub fn is_refuse(&self) -> (r: bool)
        ensures
            r == !(spec_grade_value(*self) >= 2),
    {
        !self.is_accept()
    }

    pub fn try_from(v: u8) -> (r: P2pResult<SnServiceGrade>)
        ensures
            r is Ok <==> v <= 5,
            r matches Ok(g) ==> spec_grade_value(g) == v,
            r matches Err(e) ==> e.code == P2pErrorCode::InvalidParam,
    {
        match v {
            0u8 => Ok(SnServiceGrade::Unrated),
            1u8 => Ok(SnServiceGrade::Discard),
            2u8 => Ok(SnServiceGrade::Passable),
            3u8 => Ok(SnServiceGrade::Normal),
            4u8 => Ok(SnServiceGrade::Fine),
            5u8 => Ok(SnServiceGrade::Wonderfull),
            _ => Err(P2pError::new(P2pErrorCode::InvalidParam)),
        }
    }
}

/// Version of a service receipt.
#[derive(Clone, Copy, Debug, PartialEq, Eq, Structural)]
pub enum SnServiceReceiptVersion {
    Invalid,
    Current,
}

pub open spec fn spec_receipt_version_value(v: SnServiceReceiptVersion) -> u8 {
    match v {
        SnServiceReceiptVersion::Invalid => 0,
        SnServiceReceiptVersion::Current => 1,
    }
}

impl SnServiceReceiptVersion {
    pub fn value(&self) -> (r: u8)
        ensures
            r == spec_receipt_version_value(*self),
    {
        match self {
            SnServiceReceiptVersion::Invalid => 0,
            SnServiceReceiptVersion::Current => 1,
        }
    }

    pub fn try_from(v: u8) -> (r: P2pResult<SnServiceReceiptVersion>)
        ensures
            r is Ok <==> v <= 1,
            r matches Ok(x) ==> spec_receipt_version_value(x) == v,
            r matches Err(e) ==> e.code == P2pErrorCode::UnSupport,
    {
        match v {
            0u8 => Ok(SnServiceReceiptVersion::Invalid),
            1u8 => Ok(SnServiceReceiptVersion::Current),
            _ => Err(P2pError::new(P2pErrorCode::UnSupport)),
        }
    }
}

/// What a client and an SN tell each other about the service between them.
/// `duration_ms` is the service duration in milliseconds; `start_time` is
/// bucky time.
#[derive(Clone, Copy, Debug, PartialEq, Eq, Structural)]
pub struct SnServiceReceipt {
    pub version: SnServiceReceiptVersion,
    pub grade: SnServiceGrade,
    pub rto: u16,
    pub duration_ms: u64,
    pub start_time: Timestamp,
    pub ping_count: u32,
    pub ping_resp_count: u32,
    pub called_count: u32,
    pub call_peer_count: u32,
    pub connect_peer_count: u32,
    pub call_delay: u16,
}

/// Encoded size of a receipt.
pub const SN_SERVICE_RECEIPT_LEN: usize = 38;

/// Wire form of a receipt: version and grade bytes, then the fields
/// big-endian in order, the duration in 32 bits.
pub open spec fn spec_receipt_bytes(r: SnServiceReceipt) -> Seq<u8> {
    seq![spec_receipt_version_value(r.version), spec_grade_value(r.grade)] + spec_be16(r.rto)
        + spec_be32(r.duration_ms as u32) + spec_be64(r.start_time) + spec_be32(r.ping_count)
        + spec_be32(r.ping_resp_count) + spec_be32(r.called_count) + spec_be32(r.call_peer_count)
        + spec_be32(r.connect_peer_count) + spec_be16(r.call_delay)
}

/// How decoding a receipt from `buf` fails, in the order the fields are
/// read: a missing byte is out of limit, an unknown version or grade fails,
/// and a start time before the Unix epoch is invalid data.
pub open spec fn spec_receipt_decode_error(buf: Seq<u8>) -> Option<P2pErrorCode> {
    if buf.len() < 1 {
        Some(P2pErrorCode::OutOfLimit)
    } else if buf[0] > 1 {
        Some(P2pErrorCode::Failed)
    } else if buf.len() < 2 {
        Some(P2pErrorCode::OutOfLimit)
    } else if buf[1] > 5 {
        Some(P2pErrorCode::Failed)
    } else if buf.len() < 16 {
        Some(P2pErrorCode::OutOfLimit)
    } else if spec_from_be64(buf.subrange(8, 16)) < spec_min_bucky_time() {
        Some(P2pErrorCode::InvalidData)
    } else if buf.len() < 38 {
        Some(P2pErrorCode::OutOfLimit)
    } else {
        None
    }
}

/// The receipt read from `buf` when decoding succeeds.
pub open spec fn spec_receipt_fields_match(r: SnServiceReceipt, buf: Seq<u8>) -> bool {
    &&& spec_receipt_version_value(r.version) == buf[0]
    &&& spec_grade_value(r.grade) == buf[1]
    &&& r.rto == spec_from_be16(buf.subrange(2, 4))
    &&& r.duration_ms == spec_from_be32(buf.subrange(4, 8))
    &&& r.start_time == spec_from_be64(buf.subrange(8, 16))
    &&& r.ping_count == spec_from_be32(buf.subrange(16, 20))
    &&& r.ping_resp_count == spec_from_be32(buf.subrange(20, 24))
    &&& r.called_count == spec_from_be32(buf.subrange(24, 28))
    &&& r.call_peer_count == spec_from_be32(buf.subrange(28, 32))
    &&& r.connect_peer_count == spec_from_be32(buf.subrange(32, 36))
    &&& r.call_delay == spec_from_be16(buf.subrange(36, 38))
}

impl SnServiceReceipt {
    /// An empty receipt: invalid version, no grade, zero counters, starting
    /// at the Unix epoch.
    pub fn default() -> (r: SnServiceReceipt)
        ensures
            r == (SnServiceReceipt {
                version: SnServiceReceiptVersion::Invalid,
                grade: SnServiceGrade::Unrated,
                rto: 0,
                duration_ms: 0,
                start_time: spec_min_bucky_time(),
                ping_count: 0,
                ping_resp_count: 0,
                called_count: 0,
                call_peer_count: 0,
                connect_peer_count: 0,
                call_delay: 0,
            }),
    {
        SnServiceReceipt {
            version: SnServiceReceiptVersion::Invalid,
            grade: SnServiceGrade::Unrated,
            rto: 0,
            duration_ms: 0,
            start_time: min_bucky_time(),
            ping_count: 0,
            ping_resp_count: 0,
            called_count: 0,
            call_peer_count: 0,
            connect_peer_count: 0,
            call_delay: 0,
        }
    }

    pub fn raw_measure(&self) -> (r: usize)
        ensures
            r == SN_SERVICE_RECEIPT_LEN,
            r == spec_receipt_bytes(*self).len(),
    {
        proof {
            lemma_be16_roundtrip(self.rto);
            lemma_be16_roundtrip(self.call_delay);
            lemma_be32_roundtrip(self.duration_ms as u32);
            lemma_be32_roundtrip(self.ping_count);
            lemma_be32_roundtrip(self.ping_resp_count);
            lemma_be32_roundtrip(self.called_count);
            lemma_be32_roundtrip(self.call_peer_count);
            lemma_be32_roundtrip(self.connect_peer_count);
            lemma_be64_roundtrip(self.start_time);
        }
        SN_SERVICE_RECEIPT_LEN
    }

    pub fn encode(&self) -> (r: Vec<u8>)
        ensures
            r@ == spec_receipt_bytes(*self),
    {
        let mut out: Vec<u8> = Vec::with_capacity(SN_SERVICE_RECEIPT_LEN);
        out.push(self.version.value());
        out.push(self.grade.value());
        append_bytes(&mut out, encode_u16(self.rto).as_slice());
        append_bytes(&mut out, encode_u32(self.duration_ms as u32).as_slice());
        append_bytes(&mut out, encode_u64(self.start_time).as_slice());
        append_bytes(&mut out, encode_u32(self.ping_count).as_slice());
        append_bytes(&mut out, encode_u32(self.ping_resp_count).as_slice());
        append_bytes(&mut out, encode_u32(self.called_count).as_slice());
        append_bytes(&mut out, encode_u32(self.call_peer_count).as_slice());
        append_bytes(&mut out, encode_u32(self.connect_peer_count).as_slice());
        append_bytes(&mut out, encode_u16(self.call_delay).as_slice());
        assert(out@ =~= spec_receipt_bytes(*self));
        out
    }

    /// Reads a receipt from the front of `buf`; returns it with the number of
    /// bytes it took.
    pub fn decode(buf: &[u8]) -> (r: P2pResult<(SnServiceReceipt, usize)>)
        ensures
            r is Ok <==> spec_receipt_decode_error(buf@) is None,
            r matches Err(e) ==> spec_receipt_decode_error(buf@) == Some(e.code),
            r matches Ok((rec, n)) ==> n == SN_SERVICE_RECEIPT_LEN && spec_receipt_fields_match(
                rec,
                buf@,
            ),
    {
        if buf.len() < 1 {
            return Err(P2pError::new(P2pErrorCode::OutOfLimit));
        }
        let version = match SnServiceReceiptVersion::try_from(buf[0]) {
            Ok(v) => v,
            Err(_) => {
                return Err(P2pError::new(P2pErrorCode::Failed));
            },
        };
        if buf.len() < 2 {
            return Err(P2pError::new(P2pErrorCode::OutOfLimit));
        }
        let grade = match SnServiceGrade::try_from(buf[1]) {
            Ok(g) => g,
            Err(_) => {
                return Err(P2pError::new(P2pErrorCode::Failed));
            },
        };
        if buf.len() < 16 {
            return Err(P2pError::new(P2pErrorCode::OutOfLimit));
        }
        let rto = Self::field_u16(buf, 2);
        let duration = Self::field_u32(buf, 4);
        let start_time = Self::field_u64(buf, 8);
        if start_time < min_bucky_time() {
            return Err(P2pError::new(P2pErrorCode::InvalidData));
        }
        if buf.len() < 38 {
            return Err(P2pError::new(P2pErrorCode::OutOfLimit));
        }
        let ping_count = Self::field_u32(buf, 16);
        let ping_resp_count = Self::field_u32(buf, 20);
        let called_count = Self::field_u32(buf, 24);
        let call_peer_count = Self::field_u32(buf, 28);
        let connect_peer_count = Self::field_u32(buf, 32);
        let call_delay = Self::field_u16(buf, 36);
        Ok(
            (
                SnServiceReceipt {
                    version,
                    grade,
                    rto,
                    duration_ms: duration as u64,
                    start_time,
                    ping_count,
                    ping_resp_count,
                    called_count,
                    call_peer_count,
                    connect_peer_count,
                    call_delay,
                },
                SN_SERVICE_RECEIPT_LEN,
            ),
        )
    }

    fn field_u16(buf: &[u8], at: usize) -> (r: u16)
        requires
            at + 2 <= buf@.len(),
        ensures
            r == spec_from_be16(buf@.subrange(at as int, at + 2)),
    {
        let n = buf.len();
        assert(at + 2 <= n);
        let part = &buf[at..at + 2];
        proof {
            lemma_from_be_prefix(part@, buf@.subrange(at as int, at + 2));
        }
        match decode_u16(part) {
            Some(v) => v,
            None => 0,
        }
    }

    fn field_u32(buf: &[u8], at: usize) -> (r: u32)
        requires
            at + 4 <= buf@.len(),
        ensures
            r == spec_from_be32(buf@.subrange(at as int, at + 4)),
    {
        let n = buf.len();
        assert(at + 4 <= n);
        let part = &buf[at..at + 4];
        match decode_u32(part) {
            Some(v) => v,
            None => 0,
        }
    }

    fn field_u64(buf: &[u8], at: usize) -> (r: u64)
        requires
            at + 8 <= buf@.len(),
        ensures
            r == spec_from_be64(buf@.subrange(at as int, at + 8)),
    {
        let n = buf.len();
        assert(at + 8 <= n);
        let part = &buf[at..at + 8];
        match decode_u64(part) {
            Some(v) => v,
            None => 0,
        }
    }
}

proof fn lemma_concat_parts(y: Seq<u8>, z: Seq<u8>)
    ensures
        (y + z).subrange(0, y.len() as int) == y,
        (y + z).subrange(y.len() as int, (y.len() + z.len()) as int) == z,
{
    assert((y + z).subrange(0, y.len() as int) =~= y);
    assert((y + z).subrange(y.len() as int, (y.len() + z.len()) as int) =~= z);
}

proof fn lemma_sub_of_prefix(x: Seq<u8>, y: Seq<u8>, s: int, e: int)
    requires
        y.len() <= x.len(),
        x.subrange(0, y.len() as int) == y,
        0 <= s <= e <= y.len(),
    ensures
        x.subrange(s, e) == y.subrange(s, e),
{
    assert forall|i: int| 0 <= i < e - s implies x.subrange(s, e)[i] == y.subrange(s, e)[i] by {
        assert(x[s + i] == x.subrange(0, y.len() as int)[s + i]);
    }
    assert(x.subrange(s, e) =~= y.subrange(s, e));
}

/// A receipt reads back from its own encoding, as long as its start time is
/// not before the Unix epoch (earlier times are refused by decoding) and its
/// duration fits the 32 bits the wire gives it.
pub proof fn lemma_receipt_roundtrip(r: SnServiceReceipt)
    requires
        r.start_time >= spec_min_bucky_time(),
        r.duration_ms <= u32::MAX,
    ensures
        spec_receipt_bytes(r).len() == SN_SERVICE_RECEIPT_LEN,
        spec_receipt_decode_error(spec_receipt_bytes(r)) is None,
        spec_receipt_fields_match(r, spec_receipt_bytes(r)),
{
    lemma_be16_roundtrip(r.rto);
    lemma_be16_roundtrip(r.call_delay);
    lemma_be32_roundtrip(r.duration_ms as u32);
    lemma_be32_roundtrip(r.ping_count);
    lemma_be32_roundtrip(r.ping_resp_count);
    lemma_be32_roundtrip(r.called_count);
    lemma_be32_roundtrip(r.call_peer_count);
    lemma_be32_roundtrip(r.connect_peer_count);
    lemma_be64_roundtrip(r.start_time);
    let f1 = spec_be16(r.rto);
    let f2 = spec_be32(r.duration_ms as u32);
    let f3 = spec_be64(r.start_time);
    let f4 = spec_be32(r.ping_count);
    let f5 = spec_be32(r.ping_resp_count);
    let f6 = spec_be32(r.called_count);
    let f7 = spec_be32(r.call_peer_count);
    let f8 = spec_be32(r.connect_peer_count);
    let f9 = spec_be16(r.call_delay);
    let q0 = seq![spec_receipt_version_value(r.version), spec_grade_value(r.grade)];
    let q1 = q0 + f1;
    let q2 = q1 + f2;
    let q3 = q2 + f3;
    let q4 = q3 + f4;
    let q5 = q4 + f5;
    let q6 = q5 + f6;
    let q7 = q6 + f7;
    let q8 = q7 + f8;
    let q9 = q8 + f9;
    let b = spec_receipt_bytes(r);
    assert(b == q9);
    lemma_concat_parts(q0, f1);
    lemma_concat_parts(q1, f2);
    lemma_concat_parts(q2, f3);
    lemma_concat_parts(q3, f4);
    lemma_concat_parts(q4, f5);
    lemma_concat_parts(q5, f6);
    lemma_concat_parts(q6, f7);
    lemma_concat_parts(q7, f8);
    lemma_concat_parts(q8, f9);
    assert(b.subrange(0, 38) == b) by {
        assert(b.subrange(0, 38) =~= b);
    }
    lemma_sub_of_prefix(b, q8, 0, 36);
    assert(b.subrange(0, 36) == q8);
    lemma_sub_of_prefix(b, q8, 0, 32);
    lemma_sub_of_prefix(q8, q7, 0, 32);
    lemma_sub_of_prefix(b, q7, 0, 28);
    lemma_sub_of_prefix(q7, q6, 0, 28);
    lemma_sub_of_prefix(b, q6, 0, 24);
    lemma_sub_of_prefix(q6, q5, 0, 24);
    lemma_sub_of_prefix(b, q5, 0, 20);
    lemma_sub_of_prefix(q5, q4, 0, 20);
    lemma_sub_of_prefix(b, q4, 0, 16);
    lemma_sub_of_prefix(q4, q3, 0, 16);
    lemma_sub_of_prefix(b, q3, 0, 8);
    lemma_sub_of_prefix(q3, q2, 0, 8);
    lemma_sub_of_prefix(b, q2, 0, 4);
    lemma_sub_of_prefix(q2, q1, 0, 4);
    lemma_sub_of_prefix(b, q1, 0, 2);
    lemma_sub_of_prefix(q1, q0, 0, 2);
    lemma_sub_of_prefix(b, q8, 32, 36);
    lemma_sub_of_prefix(b, q7, 28, 32);
    lemma_sub_of_prefix(b, q6, 24, 28);
    lemma_sub_of_prefix(b, q5, 20, 24);
    lemma_sub_of_prefix(b, q4, 16, 20);
    lemma_sub_of_prefix(b, q3, 8, 16);
    lemma_sub_of_prefix(b, q2, 4, 8);
    lemma_sub_of_prefix(b, q1, 2, 4);
    assert(b[0] == q0[0] && b[1] == q0[1]) by {
        assert(b.subrange(0, 2)[0] == b[0] && b.subrange(0, 2)[1] == b[1]);
    }
}

/// A receipt with the signature over it.
pub struct ReceiptWithSignature(SnServiceReceipt, P2pSignature);

impl ReceiptWithSignature {
    pub closed spec fn spec_receipt(&self) -> SnServiceReceipt {
        self.0
    }

    pub closed spec fn spec_signature(&self) -> Seq<u8> {
        self.1@
    }

    pub fn from_parts(receipt: SnServiceReceipt, signature: P2pSignature) -> (r: ReceiptWithSignature)
        ensures
            r.spec_receipt() == receipt,
            r.spec_signature() == signature@,
    {
        ReceiptWithSignature(receipt, signature)
    }

    pub fn receipt(&self) -> (r: &SnServiceReceipt)
        ensures
            *r == self.spec_receipt(),
    {
        &self.0
    }

    pub fn signature(&self) -> (r: &P2pSignature)
        ensures
            r@ == self.spec_signature(),
    {
        &self.1
    }
}

} // verus!
