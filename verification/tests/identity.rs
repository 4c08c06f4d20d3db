//! The identity service: a static name-to-chain lookup table, and the
//! PEM chain decode that feeds it.

use linkerd2_mock_dst::{parse_cert_chain, Certificates, Controller, DstService, IdentityService};

fn chain(leaf: &[u8], intermediates: Vec<Vec<u8>>) -> Certificates {
    Certificates { leaf: leaf.to_vec(), intermediates }
}

#[test]
fn known_identity_returns_its_chain() {
    let svc = IdentityService::new(vec![
        ("foo.ns1".to_string(), chain(b"leaf-foo", vec![b"int-1".to_vec(), b"int-2".to_vec()])),
        ("bar.ns1".to_string(), chain(b"leaf-bar", Vec::new())),
    ]);
    let certs = svc.certify("foo.ns1").unwrap();
    assert_eq!(certs.leaf, b"leaf-foo");
    assert_eq!(certs.intermediates, vec![b"int-1".to_vec(), b"int-2".to_vec()]);
}

#[test]
fn unknown_identity_is_not_found() {
    let svc = IdentityService::new(vec![("foo.ns1".to_string(), chain(b"leaf", Vec::new()))]);
    assert!(svc.certify("baz.ns2").is_none());
}

#[test]
fn empty_service_knows_nothing() {
    let svc = IdentityService::empty();
    assert!(svc.certify("anything").is_none());
}

#[test]
fn duplicate_names_keep_the_last_chain() {
    let svc = IdentityService::new(vec![
        ("foo".to_string(), chain(b"first", Vec::new())),
        ("foo".to_string(), chain(b"second", Vec::new())),
    ]);
    assert_eq!(svc.certify("foo").unwrap().leaf, b"second");
}

#[test]
fn pem_chain_splits_into_leaf_and_intermediates() {
    // Two certificate sections; the payloads decode to "hello" and
    // "world".
    let pem = b"-----BEGIN CERTIFICATE-----\naGVsbG8=\n-----END CERTIFICATE-----\n\
        -----BEGIN CERTIFICATE-----\nd29ybGQ=\n-----END CERTIFICATE-----\n"
        .to_vec();
    let certs = parse_cert_chain(&pem).unwrap();
    assert_eq!(certs.leaf, b"hello");
    assert_eq!(certs.intermediates, vec![b"world".to_vec()]);
}

#[test]
fn empty_pem_file_is_rejected() {
    let e = parse_cert_chain(&Vec::new()).unwrap_err();
    assert_eq!(e.reason(), "no certs in pemfile");
}

#[test]
fn controller_pairs_the_two_services() {
    let controller = Controller::new(DstService::empty(), IdentityService::empty());
    assert!(controller.dst_svc.get("unknown:80").is_ok());
    assert!(controller.identity_svc.certify("nobody").is_none());
}
