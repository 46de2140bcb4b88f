use vstd::prelude::*;
use crate::endpoint::Endpoint;
use crate::codec::spec_from_be16;
use crate::error::{P2pError, P2pErrorCode, P2pResult};
use crate::sn::protocol::common::{spec_cmd_code_value, PackageCmdCode, PackageHeader};
use crate::types::{P2pId, TunnelId};

verus! {

/// Receives the packages that arrive on a peer connection.
pub trait PeerConnectionEvent {
    fn on_recv(&self, conn_id: TunnelId, cmd_code: PackageCmdCode, cmd_body: Vec<u8>) -> P2pResult<()>;
}

/// What the header of a package read off a peer connection says: its
/// command and how many body bytes follow. A header cut short is a codec
/// error; an unknown command is an invalid parameter.
pub fn read_pkg_header(buf: &[u8]) -> (r: P2pResult<(PackageCmdCode, usize)>)
    ensures
        buf@.len() < 4 ==> r == Err::<(PackageCmdCode, usize), P2pError>(
            P2pError { code: P2pErrorCode::RawCodecError },
        ),
        buf@.len() >= 4 && 0x20 <= buf@[3] <= 0x27 ==> (r matches Ok((c, n)) && spec_cmd_code_value(c)
            == buf@[3] && n == spec_from_be16(buf@)),
        buf@.len() >= 4 && !(0x20 <= buf@[3] <= 0x27) ==> r == Err::<(PackageCmdCode, usize), P2pError>(
            P2pError { code: P2pErrorCode::InvalidParam },
        ),
{
    let header = match PackageHeader::decode(buf) {
        Ok((h, _)) => h,
        Err(_) => {
            return Err(P2pError::new(P2pErrorCode::RawCodecError));
        },
    };
    match header.cmd_code() {
        Ok(c) => Ok((c, header.pkg_len() as usize)),
        Err(e) => Err(e),
    }
}

pub struct PeerConnectionView {
    pub conn_id: TunnelId,
    pub local: Endpoint,
    pub remote: Endpoint,
    pub local_id: Seq<u8>,
    pub remote_id: Seq<u8>,
}

/// A connection between the SN and a peer: its id, both ends, the half it
/// sends on (`W`) and the handle of the task receiving on the other (`H`).
pub struct PeerConnection<W, H> {
    conn_id: TunnelId,
    local: Endpoint,
    remote: Endpoint,
    local_id: P2pId,
    remote_id: P2pId,
    send: W,
    handle: Option<H>,
}

impl<W, H> View for PeerConnection<W, H> {
    type V = PeerConnectionView;

    closed spec fn view(&self) -> PeerConnectionView {
        PeerConnectionView {
            conn_id: self.conn_id,
            local: self.local,
            remote: self.remote,
            local_id: self.local_id@,
            remote_id: self.remote_id@,
        }
    }
}

impl<W, H> PeerConnection<W, H> {
    pub closed spec fn recv_handle(&self) -> Option<H> {
        self.handle
    }

    pub closed spec fn sender(&self) -> W {
        self.send
    }

    /// A connection whose receiving task runs under `handle`.
    pub fn new(
        conn_id: TunnelId,
        local: Endpoint,
        remote: Endpoint,
        local_id: P2pId,
        remote_id: P2pId,
        send: W,
        handle: H,
    ) -> (r: PeerConnection<W, H>)
        ensures
            r@ == (PeerConnectionView {
                conn_id,
                local,
                remote,
                local_id: local_id@,
                remote_id: remote_id@,
            }),
            r.sender() == send,
            r.recv_handle() == Some(handle),
    {
        PeerConnection { conn_id, local, remote, local_id, remote_id, send, handle: Some(handle) }
    }

    pub fn conn_id(&self) -> (r: TunnelId)
        ensures
            r == self@.conn_id,
    {
        self.conn_id
    }

    pub fn local(&self) -> (r: Endpoint)
        ensures
            r == self@.local,
    {
        self.local
    }

    pub fn remote(&self) -> (r: Endpoint)
        ensures
            r == self@.remote,
    {
        self.remote
    }

    pub fn local_identity_id(&self) -> (r: P2pId)
        ensures
            r@ == self@.local_id,
    {
        self.local_id.duplicate()
    }

    pub fn remote_identity_id(&self) -> (r: P2pId)
        ensures
            r@ == self@.remote_id,
    {
        self.remote_id.duplicate()
    }

    /// Hands out the receiving task's handle, once.
    pub fn take_recv_handle(&mut self) -> (r: Option<H>)
        ensures
            r == old(self).recv_handle(),
            final(self).recv_handle() is None,
            final(self)@ == old(self)@,
            final(self).sender() == old(self).sender(),
    {
        self.handle.take()
    }

    /// The half packages are sent on.
    pub fn sender_mut(&mut self) -> (r: &mut W)
        ensures
            *r == old(self).sender(),
    {
        &mut self.send
    }
}

} // verus!
