use p2p_frame::tls::server_cert_resolver::ServerIdentityCache;
use p2p_frame::tls::{client_signature_check, server_cert_check, server_signature_check, TlsCheck};
use p2p_frame::types::P2pId;

fn id(seed: u8) -> P2pId {
    P2pId::from_bytes(vec![seed; 4])
}

#[test]
fn server_cert_of_the_expected_server_is_accepted() {
    assert_eq!(server_cert_check(Some(&id(1)), true, &id(1)), TlsCheck::Accepted);
}

#[test]
fn server_cert_of_another_server_or_name_is_refused() {
    assert_eq!(server_cert_check(Some(&id(2)), true, &id(1)), TlsCheck::InvalidServerName);
    assert_eq!(server_cert_check(Some(&id(1)), false, &id(1)), TlsCheck::InvalidServerName);
}

#[test]
fn server_cert_that_does_not_parse_is_a_bad_encoding() {
    assert_eq!(server_cert_check(None, true, &id(1)), TlsCheck::BadEncoding);
    assert_eq!(server_signature_check(None, true, &id(1)), TlsCheck::BadEncoding);
}

#[test]
fn server_signature_checks_signature_and_server() {
    assert_eq!(server_signature_check(Some(&id(1)), true, &id(1)), TlsCheck::Accepted);
    assert_eq!(server_signature_check(Some(&id(1)), false, &id(1)), TlsCheck::InvalidSignature);
    assert_eq!(server_signature_check(Some(&id(3)), true, &id(1)), TlsCheck::InvalidSignature);
}

#[test]
fn client_signature_steps_in_order() {
    assert_eq!(client_signature_check(false, false, false, false), TlsCheck::BadEncoding);
    assert_eq!(client_signature_check(true, false, true, true), TlsCheck::InvalidSignature);
    assert_eq!(client_signature_check(true, true, false, true), TlsCheck::InvalidCertificate);
    assert_eq!(client_signature_check(true, true, true, false), TlsCheck::InvalidSignature);
    assert_eq!(client_signature_check(true, true, true, true), TlsCheck::Accepted);
}


#[test]
fn server_identity_is_found_under_name_and_id() {
    let mut cache: ServerIdentityCache<u32> = ServerIdentityCache::new();
    cache.add_server_identity("dev1".to_string(), "ID1".to_string(), 1, 1);
    assert_eq!(cache.get_server_identity("dev1"), Some(&1));
    assert_eq!(cache.get_server_identity("ID1"), Some(&1));
    assert_eq!(cache.get_server_identity("other"), None);
}

#[test]
fn removing_by_either_key_removes_both() {
    let mut cache: ServerIdentityCache<u32> = ServerIdentityCache::new();
    cache.add_server_identity("dev1".to_string(), "ID1".to_string(), 1, 1);
    cache.add_server_identity("dev2".to_string(), "ID2".to_string(), 2, 2);
    cache.remove_server_identity("ID1");
    assert_eq!(cache.get_server_identity("dev1"), None);
    assert_eq!(cache.get_server_identity("ID1"), None);
    assert_eq!(cache.get_server_identity("dev2"), Some(&2));
    cache.remove_server_identity("missing");
    assert_eq!(cache.get_server_identity("ID2"), Some(&2));
}

#[test]
fn resolve_uses_the_name_inside_the_server_name() {
    let mut cache: ServerIdentityCache<u32> = ServerIdentityCache::new();
    cache.add_server_identity("dev1".to_string(), "ID1".to_string(), 7, 7);
    assert_eq!(cache.resolve(Some("p2p.dev1.com")), Some(&7));
    assert_eq!(cache.resolve(Some("dev1")), Some(&7));
    assert_eq!(cache.resolve(Some("p2p.dev2.com")), None);
    assert_eq!(cache.resolve(None), None);
}
