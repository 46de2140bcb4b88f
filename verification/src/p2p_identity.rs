use vstd::prelude::*;
use crate::endpoint::Endpoint;
use crate::error::P2pResult;
use crate::types::{copy_bytes, copy_vec, EncodedP2pIdentityCert, P2pId};

verus! {

/// What the SN logic reads of a peer's identity certificate.
pub struct IdentityCertView {
    pub id: Seq<u8>,
    pub name: Seq<char>,
    pub endpoints: Seq<Endpoint>,
    pub encoded: Seq<u8>,
}

/// A peer's identity certificate as the SN holds it: the peer's identifier,
/// its name, the endpoints it announces and its encoded form.
pub struct P2pIdentityCert {
    id: P2pId,
    name: String,
    endpoints: Vec<Endpoint>,
    encoded: EncodedP2pIdentityCert,
}

/// Certificates are handed around by value.
pub type P2pIdentityCertRef = P2pIdentityCert;

impl View for P2pIdentityCert {
    type V = IdentityCertView;

    open spec fn view(&self) -> IdentityCertView {
        IdentityCertView {
            id: self.spec_id(),
            name: self.spec_name(),
            endpoints: self.spec_endpoints(),
            encoded: self.spec_encoded(),
        }
    }
}

impl P2pIdentityCert {
    pub closed spec fn spec_id(&self) -> Seq<u8> {
        self.id@
    }

    pub closed spec fn spec_name(&self) -> Seq<char> {
        self.name@
    }

    pub closed spec fn spec_endpoints(&self) -> Seq<Endpoint> {
        self.endpoints@
    }

    pub closed spec fn spec_encoded(&self) -> Seq<u8> {
        self.encoded@
    }

    pub fn new(id: P2pId, name: String, endpoints: Vec<Endpoint>, encoded: EncodedP2pIdentityCert) -> (r:
        P2pIdentityCert)
        ensures
            r@ == (IdentityCertView { id: id@, name: name@, endpoints: endpoints@, encoded: encoded@ }),
    {
        P2pIdentityCert { id, name, endpoints, encoded }
    }

    /// Read access to the certificate's encoded form.
    pub fn encoded_ref(&self) -> (r: &EncodedP2pIdentityCert)
        ensures
            r@ == self@.encoded,
    {
        &self.encoded
    }

    /// The certificate's encoded form; reading it never fails.
    pub fn get_encoded_cert(&self) -> (r: P2pResult<EncodedP2pIdentityCert>)
        ensures
            r matches Ok(e) && e@ == self@.encoded,
    {
        Ok(copy_bytes(&self.encoded))
    }

    pub fn get_id(&self) -> (r: P2pId)
        ensures
            r@ == self@.id,
    {
        self.id.duplicate()
    }

    pub fn get_name(&self) -> (r: String)
        ensures
            r@ == self@.name,
    {
        self.name.clone()
    }

    pub fn endpoints(&self) -> (r: Vec<Endpoint>)
        ensures
            r@ == self@.endpoints,
    {
        copy_vec(&self.endpoints)
    }

    /// Read access to the announced endpoints.
    pub fn endpoints_ref(&self) -> (r: &Vec<Endpoint>)
        ensures
            r@ == self@.endpoints,
    {
        &self.endpoints
    }

    /// The same certificate announcing `eps` instead.
    pub fn update_endpoints(&self, eps: Vec<Endpoint>) -> (r: P2pIdentityCert)
        ensures
            r@ == (IdentityCertView { endpoints: eps@, ..self@ }),
    {
        P2pIdentityCert {
            id: self.id.duplicate(),
            name: self.name.clone(),
            endpoints: eps,
            encoded: copy_bytes(&self.encoded),
        }
    }

    /// A copy of this certificate.
    pub fn duplicate(&self) -> (r: P2pIdentityCert)
        ensures
            r@ == self@,
    {
        P2pIdentityCert {
            id: self.id.duplicate(),
            name: self.name.clone(),
            endpoints: copy_vec(&self.endpoints),
            encoded: copy_bytes(&self.encoded),
        }
    }
}

} // verus!
