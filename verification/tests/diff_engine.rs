//! The diff engine: minimal add/remove events between consecutive
//! snapshots, emptiness and retraction signaling, and whole streams.

use linkerd2_mock_dst::{
    diff_endpoints, encode_meta, Address, Dst, DstService, EndpointMeta, Endpoints, Update,
};

fn addr(s: &str) -> Address {
    Address::from_str(s).unwrap()
}

fn meta(a: &str, weight: u32) -> EndpointMeta {
    EndpointMeta::new(addr(a), false, weight, Vec::new(), None, None)
}

fn snapshot(metas: Vec<EndpointMeta>) -> Endpoints {
    Endpoints::from_records(metas)
}

#[test]
fn diff_reports_new_changed_and_gone_addresses() {
    let prev = snapshot(vec![meta("1.1.1.1:80", 1), meta("2.2.2.2:80", 1), meta("3.3.3.3:80", 1)]);
    // 1.1.1.1 is unchanged, 2.2.2.2 changes weight, 3.3.3.3 vanishes,
    // 4.4.4.4 is new.
    let curr = snapshot(vec![meta("1.1.1.1:80", 1), meta("2.2.2.2:80", 9), meta("4.4.4.4:80", 1)]);
    let (added, removed) = diff_endpoints(&prev, &curr);
    // Added records come in the order of the new snapshot.
    let added_addrs: Vec<String> = added.iter().map(|m| m.address.render()).collect();
    assert_eq!(added_addrs, vec!["2.2.2.2:80".to_string(), "4.4.4.4:80".to_string()]);
    assert_eq!(removed.len(), 1);
    assert_eq!(removed[0], addr("3.3.3.3:80"));
}

#[test]
fn diff_of_identical_snapshots_is_empty() {
    let prev = snapshot(vec![meta("1.1.1.1:80", 1), meta("2.2.2.2:80", 5)]);
    let curr = snapshot(vec![meta("1.1.1.1:80", 1), meta("2.2.2.2:80", 5)]);
    let (added, removed) = diff_endpoints(&prev, &curr);
    assert!(added.is_empty());
    assert!(removed.is_empty());
}

#[test]
fn any_field_change_replaces_the_address() {
    let prev = snapshot(vec![meta("1.1.1.1:80", 1)]);
    let changed = EndpointMeta::new(addr("1.1.1.1:80"), true, 1, Vec::new(), None, None);
    let curr = snapshot(vec![changed]);
    let (added, removed) = diff_endpoints(&prev, &curr);
    assert_eq!(added.len(), 1);
    assert!(added[0].h2);
    assert!(removed.is_empty());
}

#[test]
fn add_comes_strictly_before_remove() {
    let mut store = DstService::empty();
    let d = Dst::new("svc".to_string(), 80);
    store.publish(Dst::new("svc".to_string(), 80), snapshot(vec![meta("1.1.1.1:80", 1)]));
    let (mut sub, first) = store.get("svc:80").unwrap();
    assert_eq!(first.len(), 1);
    // Replace the only endpoint: one Add, then one Remove.
    store.publish(Dst::new("svc".to_string(), 80), snapshot(vec![meta("2.2.2.2:80", 1)]));
    let out = sub.observe(store.lookup(&d).unwrap());
    assert_eq!(out.len(), 2);
    match &out[0] {
        Update::Add { addrs, labels } => {
            assert_eq!(addrs.len(), 1);
            assert_eq!(addrs[0].addr, addr("2.2.2.2:80"));
            assert_eq!(labels, &vec![("concrete".to_string(), "svc:80".to_string())]);
        }
        other => panic!("expected Add first, got {:?}", other),
    }
    match &out[1] {
        Update::Remove { addresses } => {
            assert_eq!(addresses, &vec![addr("1.1.1.1:80")]);
        }
        other => panic!("expected Remove second, got {:?}", other),
    }
}

#[test]
fn identical_publish_emits_nothing() {
    let mut store = DstService::empty();
    let d = Dst::new("svc".to_string(), 80);
    store.publish(Dst::new("svc".to_string(), 80), snapshot(vec![meta("1.1.1.1:80", 1)]));
    let (mut sub, _) = store.get("svc:80").unwrap();
    store.publish(Dst::new("svc".to_string(), 80), snapshot(vec![meta("1.1.1.1:80", 1)]));
    let out = sub.observe(store.lookup(&d).unwrap());
    assert!(out.is_empty());
}

#[test]
fn empty_snapshot_signals_no_endpoints_exists() {
    let mut store = DstService::empty();
    let d = Dst::new("svc".to_string(), 80);
    store.publish(Dst::new("svc".to_string(), 80), snapshot(vec![meta("1.1.1.1:80", 1)]));
    let (mut sub, _) = store.get("svc:80").unwrap();
    store.publish(Dst::new("svc".to_string(), 80), snapshot(Vec::new()));
    let out = sub.observe(store.lookup(&d).unwrap());
    assert_eq!(out.len(), 1);
    assert!(matches!(out[0], Update::NoEndpoints { key_exists: true }));
}

#[test]
fn unknown_key_yields_one_terminal_no_endpoints() {
    let store = DstService::empty();
    let (_sub, out) = store.get("never:80").unwrap();
    assert_eq!(out.len(), 1);
    assert!(matches!(out[0], Update::NoEndpoints { key_exists: false }));
}

#[test]
fn malformed_key_is_an_invalid_argument_failure() {
    let store = DstService::empty();
    assert!(store.get("no-port-here").is_err());
    assert!(store.get_profile("no-port-here").is_err());
}

#[test]
fn retraction_signals_subscribers_and_empties_the_store() {
    let mut store = DstService::empty();
    let d = Dst::new("svc".to_string(), 80);
    store.publish(Dst::new("svc".to_string(), 80), snapshot(vec![meta("1.1.1.1:80", 1)]));
    let (mut sub, _) = store.get("svc:80").unwrap();
    store.retract(&d);
    assert!(store.lookup(&d).is_none());
    let out = sub.on_closed();
    assert_eq!(out.len(), 1);
    assert!(matches!(out[0], Update::NoEndpoints { key_exists: false }));
}

#[test]
fn retract_of_absent_key_is_a_no_op() {
    let mut store = DstService::empty();
    let d = Dst::new("ghost".to_string(), 80);
    store.retract(&d);
    assert!(store.lookup(&d).is_none());
}

#[test]
fn new_subscriber_gets_a_full_initial_add_burst() {
    let mut store = DstService::empty();
    store.publish(
        Dst::new("svc".to_string(), 80),
        snapshot(vec![meta("1.1.1.1:80", 1), meta("2.2.2.2:80", 2)]),
    );
    let (_sub, out) = store.get("svc:80").unwrap();
    assert_eq!(out.len(), 1);
    match &out[0] {
        Update::Add { addrs, .. } => {
            assert_eq!(addrs.len(), 2);
        }
        other => panic!("expected Add, got {:?}", other),
    }
}

#[test]
fn encoded_record_carries_synthesized_labels() {
    let m = EndpointMeta::new(
        addr("10.0.0.1:80"),
        true,
        7,
        vec![("zone".to_string(), "west".to_string())],
        Some("id.example".to_string()),
        Some("auth.example:80".to_string()),
    );
    let w = encode_meta(&m);
    assert_eq!(w.addr, addr("10.0.0.1:80"));
    assert_eq!(w.weight, 7);
    assert!(w.h2_hint);
    assert_eq!(
        w.labels,
        vec![
            ("zone".to_string(), "west".to_string()),
            ("addr".to_string(), "10.0.0.1:80".to_string()),
            ("h2".to_string(), "true".to_string()),
        ]
    );
    assert_eq!(w.tls_identity.as_deref(), Some("id.example"));
    assert_eq!(w.authority_override.as_deref(), Some("auth.example:80"));
}

#[test]
fn synthesized_labels_override_record_labels() {
    let m = EndpointMeta::new(
        addr("10.0.0.1:80"),
        false,
        1,
        vec![("addr".to_string(), "forged".to_string())],
        None,
        None,
    );
    let w = encode_meta(&m);
    assert_eq!(
        w.labels,
        vec![
            ("addr".to_string(), "10.0.0.1:80".to_string()),
            ("h2".to_string(), "false".to_string()),
        ]
    );
}

#[test]
fn end_to_end_stream_lifecycle() {
    let mut store = DstService::empty();
    let d = Dst::new("svc".to_string(), 80);
    store.publish(Dst::new("svc".to_string(), 80), snapshot(vec![meta("10.0.0.1:80", 1)]));
    // A subscriber attached after the publish gets one Add for the record.
    let (mut sub, out) = store.get("svc:80").unwrap();
    assert_eq!(out.len(), 1);
    match &out[0] {
        Update::Add { addrs, .. } => {
            assert_eq!(addrs.len(), 1);
            assert_eq!(addrs[0].addr, addr("10.0.0.1:80"));
            assert_eq!(addrs[0].weight, 1);
        }
        other => panic!("expected Add, got {:?}", other),
    }
    // An empty publish signals configured-but-empty.
    store.publish(Dst::new("svc".to_string(), 80), snapshot(Vec::new()));
    let out = sub.observe(store.lookup(&d).unwrap());
    assert_eq!(out.len(), 1);
    assert!(matches!(out[0], Update::NoEndpoints { key_exists: true }));
    // A retract closes the stream with the terminal marker.
    store.retract(&d);
    assert!(store.lookup(&d).is_none());
    let out = sub.on_closed();
    assert_eq!(out.len(), 1);
    assert!(matches!(out[0], Update::NoEndpoints { key_exists: false }));
}
