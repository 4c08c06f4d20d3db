//! The startup grammars: routing keys, socket addresses, and the two
//! `;`-separated configuration languages.

use linkerd2_mock_dst::{Address, Dst, DstService, EndpointsSpec, OverridesSpec};

fn addr(s: &str) -> Address {
    Address::from_str(s).unwrap()
}

#[test]
fn dst_parses_name_and_port() {
    let d = Dst::from_str("svc.test.svc.cluster.local:8080").unwrap();
    assert_eq!(d.name, "svc.test.svc.cluster.local");
    assert_eq!(d.port, 8080);
}

#[test]
fn dst_without_colon_is_invalid_destination() {
    let e = Dst::from_str("no-port").unwrap_err();
    assert_eq!(e.reason(), "invalid destination");
}

#[test]
fn dst_with_bad_port_is_invalid_port() {
    let e = Dst::from_str("svc:http").unwrap_err();
    assert_eq!(e.reason(), "invalid port");
    let e = Dst::from_str("svc:65536").unwrap_err();
    assert_eq!(e.reason(), "invalid port");
    let e = Dst::from_str("svc:80:80").unwrap_err();
    assert_eq!(e.reason(), "invalid port");
}

#[test]
fn dst_renders_as_name_colon_port() {
    let d = Dst::new(String::from("svc"), 80);
    assert_eq!(d.render(), "svc:80");
}

#[test]
fn rendered_key_parses_back() {
    let d = Dst::from_str("svc.ns:8080").unwrap();
    let d2 = Dst::from_str(&d.render()).unwrap();
    assert_eq!(d2.name, d.name);
    assert_eq!(d2.port, d.port);
}

#[test]
fn address_parses_dotted_quad_and_port() {
    let a = addr("10.0.0.1:80");
    assert_eq!((a.o0, a.o1, a.o2, a.o3, a.port), (10, 0, 0, 1, 80));
    assert_eq!(a.render(), "10.0.0.1:80");
}

#[test]
fn address_rejects_malformed_input() {
    assert!(Address::from_str("10.0.0:80").is_none());
    assert!(Address::from_str("10.0.0.256:80").is_none());
    assert!(Address::from_str("01.2.3.4:80").is_none());
    assert!(Address::from_str("1.2.3.4:65536").is_none());
    assert!(Address::from_str("1.2.3.4").is_none());
    assert!(Address::from_str("1.2.3.4.5:80").is_none());
    assert!(Address::from_str("").is_none());
}

#[test]
fn address_edge_values_round_trip() {
    let a = addr("0.0.0.0:0");
    assert_eq!(a.render(), "0.0.0.0:0");
    let b = addr("255.255.255.255:65535");
    assert_eq!(b.render(), "255.255.255.255:65535");
    // A leading zero in the port is tolerated, as in a bare port number.
    assert_eq!(addr("10.0.0.1:080").port, 80);
}

#[test]
fn overrides_weight_must_fit_32_bits() {
    let sp = OverridesSpec::from_str("svc:80=o:1*4294967295").unwrap();
    assert_eq!(sp.entries()[0].1.entries()[0].1, u32::MAX);
    assert!(OverridesSpec::from_str("svc:80=o:1*4294967296").is_err());
}

#[test]
fn empty_endpoints_spec_is_empty() {
    let sp = EndpointsSpec::from_str("").unwrap();
    assert_eq!(sp.entries().len(), 0);
}

#[test]
fn endpoints_spec_parses_one_entry() {
    let sp = EndpointsSpec::from_str("svc:8080=127.0.0.1:8080").unwrap();
    let entries = sp.entries();
    assert_eq!(entries.len(), 1);
    assert_eq!(entries[0].0.name, "svc");
    assert_eq!(entries[0].0.port, 8080);
    let eps = &entries[0].1;
    assert_eq!(eps.len(), 1);
    let m = eps.find(addr("127.0.0.1:8080")).unwrap();
    assert!(!m.h2);
    assert_eq!(m.weight, 10_000);
    assert!(m.metric_labels.is_empty());
    assert!(m.tls_identity.is_none());
    assert!(m.authority_override.is_none());
}

#[test]
fn endpoints_spec_parses_suffixes() {
    let sp = EndpointsSpec::from_str(
        "a:1=1.2.3.4:1#h2,5.6.7.8:2#h2#id.example,9.9.9.9:3##bare.id",
    )
    .unwrap();
    let eps = &sp.entries()[0].1;
    assert_eq!(eps.len(), 3);
    let m1 = eps.find(addr("1.2.3.4:1")).unwrap();
    assert!(m1.h2);
    assert!(m1.tls_identity.is_none());
    let m2 = eps.find(addr("5.6.7.8:2")).unwrap();
    assert!(m2.h2);
    assert_eq!(m2.tls_identity.as_deref(), Some("id.example"));
    let m3 = eps.find(addr("9.9.9.9:3")).unwrap();
    assert!(!m3.h2);
    assert_eq!(m3.tls_identity.as_deref(), Some("bare.id"));
}

#[test]
fn endpoints_spec_last_entry_wins() {
    let sp = EndpointsSpec::from_str("svc:80=1.2.3.4:80;svc:80=5.6.7.8:80").unwrap();
    let entries = sp.entries();
    assert_eq!(entries.len(), 1);
    assert!(entries[0].1.find(addr("5.6.7.8:80")).is_some());
    assert!(entries[0].1.find(addr("1.2.3.4:80")).is_none());
}

#[test]
fn endpoints_spec_rejects_malformed_entries() {
    assert!(EndpointsSpec::from_str("svc:80").is_err());
    assert!(EndpointsSpec::from_str("svc:80=1.2.3.4:80=x").is_err());
    assert!(EndpointsSpec::from_str("svc:80=").is_err());
    assert!(EndpointsSpec::from_str("=1.2.3.4:80").is_err());
    assert!(EndpointsSpec::from_str("svc:80=not-an-addr").is_err());
    assert!(EndpointsSpec::from_str("svc:80=1.2.3.4:80;;").is_err());
}

#[test]
fn overrides_spec_parses_weights() {
    let sp = OverridesSpec::from_str("svc:80=other:8080*500,backup:8080").unwrap();
    let entries = sp.entries();
    assert_eq!(entries.len(), 1);
    let ovr = entries[0].1.entries();
    assert_eq!(ovr.len(), 2);
    assert_eq!(ovr[0].0.name, "other");
    assert_eq!(ovr[0].1, 500);
    assert_eq!(ovr[1].0.name, "backup");
    assert_eq!(ovr[1].1, 1_000);
}

#[test]
fn overrides_spec_rejects_bad_weight() {
    assert!(OverridesSpec::from_str("svc:80=other:8080*heavy").is_err());
    assert!(OverridesSpec::from_str("svc:80=other:8080*").is_err());
    assert!(OverridesSpec::from_str("svc:80=*5").is_err());
}

#[test]
fn seeded_store_serves_the_configuration() {
    let eps = EndpointsSpec::from_str("svc:80=10.0.0.1:80").unwrap();
    let ovr = OverridesSpec::from_str("svc:80=other:8080*500").unwrap();
    let store = DstService::new(eps, ovr);
    let d = Dst::new(String::from("svc"), 80);
    let snapshot = store.lookup(&d).unwrap();
    assert_eq!(snapshot.len(), 1);
    assert!(snapshot.find(addr("10.0.0.1:80")).is_some());
    let profile = store.get_profile("svc:80").unwrap().unwrap();
    assert_eq!(profile.dst_overrides, vec![(String::from("other:8080"), 500)]);
}
