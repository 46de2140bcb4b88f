use vstd::prelude::*;
pub mod server_cert_resolver;
use crate::types::P2pId;

verus! {

/// How a check of a peer's TLS certificate or handshake signature ends.
#[derive(Clone, Copy, Debug, PartialEq, Eq, Structural)]
pub enum TlsCheck {
    Accepted,
    /// The certificate does not parse.
    BadEncoding,
    /// The certificate does not verify the server name or is not the
    /// expected server's.
    InvalidServerName,
    /// The signature does not parse or does not verify, or the certificate
    /// is not the expected server's.
    InvalidSignature,
    /// The parsed certificate could not be turned into an identity.
    InvalidCertificate,
}

/// The client's check of the server certificate: one that does not parse
/// (`cert_id` absent) is a bad encoding; one that verifies the server name
/// and carries the expected server id is accepted; any other is refused.
pub fn server_cert_check(cert_id: Option<&P2pId>, name_verified: bool, server_id: &P2pId) -> (r: TlsCheck)
    ensures
        cert_id is None ==> r == TlsCheck::BadEncoding,
        cert_id matches Some(id) ==> r == (if name_verified && id@ == server_id@ {
            TlsCheck::Accepted
        } else {
            TlsCheck::InvalidServerName
        }),
{
    match cert_id {
        None => TlsCheck::BadEncoding,
        Some(id) => if name_verified && id.same_as(server_id) {
            TlsCheck::Accepted
        } else {
            TlsCheck::InvalidServerName
        },
    }
}

/// The client's check of the server's handshake signature: a certificate
/// that does not parse is a bad encoding; a signature that verifies under
/// the expected server's certificate is accepted; any other is refused.
pub fn server_signature_check(cert_id: Option<&P2pId>, signature_verified: bool, server_id: &P2pId) -> (r: TlsCheck)
    ensures
        cert_id is None ==> r == TlsCheck::BadEncoding,
        cert_id matches Some(id) ==> r == (if signature_verified && id@ == server_id@ {
            TlsCheck::Accepted
        } else {
            TlsCheck::InvalidSignature
        }),
{
    match cert_id {
        None => TlsCheck::BadEncoding,
        Some(id) => if signature_verified && id.same_as(server_id) {
            TlsCheck::Accepted
        } else {
            TlsCheck::InvalidSignature
        },
    }
}

/// The server's check of a client's handshake signature, in the order the
/// steps are taken: the certificate must parse, then the signature, then
/// the certificate must give an identity, and the signature must verify
/// under it.
pub fn client_signature_check(
    cert_parses: bool,
    signature_parses: bool,
    identity_created: bool,
    signature_verified: bool,
) -> (r: TlsCheck)
    ensures
        r == (if !cert_parses {
            TlsCheck::BadEncoding
        } else if !signature_parses {
            TlsCheck::InvalidSignature
        } else if !identity_created {
            TlsCheck::InvalidCertificate
        } else if signature_verified {
            TlsCheck::Accepted
        } else {
            TlsCheck::InvalidSignature
        }),
{
    if !cert_parses {
        TlsCheck::BadEncoding
    } else if !signature_parses {
        TlsCheck::InvalidSignature
    } else if !identity_created {
        TlsCheck::InvalidCertificate
    } else if signature_verified {
        TlsCheck::Accepted
    } else {
        TlsCheck::InvalidSignature
    }
}

} // verus!
