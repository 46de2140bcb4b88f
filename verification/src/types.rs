use vstd::prelude::*;

verus! {

/// Time in microseconds since 1601-01-01 (bucky time).
pub type Timestamp = u64;

/// Per-message sequence number.
#[derive(Clone, Copy, Debug, PartialEq, Eq, Structural)]
pub struct Sequence(pub u32);

impl Sequence {
    pub fn value(&self) -> (r: u32)
        ensures
            r == self.0,
    {
        self.0
    }
}

/// Identifier of a command tunnel on the SN.
pub type CmdTunnelId = u64;

/// Identifier of a tunnel between two peers.
#[derive(Clone, Copy, Debug, PartialEq, Eq, Structural)]
pub struct TunnelId(pub u32);

impl TunnelId {
    pub fn value(&self) -> (r: u32)
        ensures
            r == self.0,
    {
        self.0
    }
}

/// Identifier of a stream session.
pub type SessionId = u32;

/// Identifier of one candidate path of a tunnel.
#[derive(Clone, Copy, Debug, PartialEq, Eq, Structural)]
pub struct TunnelCandidateId(pub u32);

/// Identity of a peer: the bytes of its identifier.
#[derive(Clone, Debug)]
pub struct P2pId(pub Vec<u8>);

impl View for P2pId {
    type V = Seq<u8>;

    open spec fn view(&self) -> Seq<u8> {
        self.0@
    }
}

/// A signature over some message, as raw bytes.
pub type P2pSignature = Vec<u8>;

/// An encoded identity certificate, as raw bytes.
pub type EncodedP2pIdentityCert = Vec<u8>;

/// Byte-wise copy of a byte vector.
pub fn copy_bytes(bytes: &Vec<u8>) -> (r: Vec<u8>)
    ensures
        r@ == bytes@,
{
    let mut out: Vec<u8> = Vec::with_capacity(bytes.len());
    let mut i: usize = 0;
    while i < bytes.len()
        invariant
            i <= bytes.len(),
            out@ == bytes@.subrange(0, i as int),
        decreases bytes.len() - i,
    {
        out.push(bytes[i]);
        i = i + 1;
        assert(out@ =~= bytes@.subrange(0, i as int));
    }
    assert(bytes@.subrange(0, bytes.len() as int) =~= bytes@);
    out
}

/// Element-wise copy of a vector of plain values.
pub fn copy_vec<T: Copy>(v: &Vec<T>) -> (r: Vec<T>)
    ensures
        r@ == v@,
{
    let mut out: Vec<T> = Vec::with_capacity(v.len());
    let mut i: usize = 0;
    while i < v.len()
        invariant
            i <= v.len(),
            out@ == v@.subrange(0, i as int),
        decreases v.len() - i,
    {
        out.push(v[i]);
        i = i + 1;
        assert(out@ =~= v@.subrange(0, i as int));
    }
    assert(v@.subrange(0, v.len() as int) =~= v@);
    out
}

/// Byte-wise comparison of two byte slices.
pub fn bytes_eq(a: &[u8], b: &[u8]) -> (r: bool)
    ensures
        r == (a@ == b@),
{
    if a.len() != b.len() {
        return false;
    }
    let mut i: usize = 0;
    while i < a.len()
        invariant
            a.len() == b.len(),
            i <= a.len(),
            forall|j: int| 0 <= j < i ==> a@[j] == b@[j],
        decreases a.len() - i,
    {
        if a[i] != b[i] {
            return false;
        }
        i = i + 1;
    }
    assert(a@ =~= b@);
    true
}

impl P2pId {
    pub fn from_bytes(bytes: Vec<u8>) -> (r: P2pId)
        ensures
            r@ == bytes@,
    {
        P2pId(bytes)
    }

    pub fn as_slice(&self) -> (r: &[u8])
        ensures
            r@ == self@,
    {
        self.0.as_slice()
    }

    /// A copy of this identifier.
    pub fn duplicate(&self) -> (r: P2pId)
        ensures
            r@ == self@,
    {
        P2pId(copy_bytes(&self.0))
    }

    /// Whether two identifiers hold the same bytes.
    pub fn same_as(&self, other: &P2pId) -> (r: bool)
        ensures
            r == (self@ == other@),
    {
        bytes_eq(self.0.as_slice(), other.0.as_slice())
    }
}

impl PartialEq for P2pId {
    fn eq(&self, other: &P2pId) -> (r: bool) {
        self.same_as(other)
    }
}

impl vstd::std_specs::cmp::PartialEqSpecImpl for P2pId {
    open spec fn obeys_eq_spec() -> bool {
        true
    }

    open spec fn eq_spec(&self, other: &P2pId) -> bool {
        self@ == other@
    }
}

} // verus!
