//! The filesystem reconciler: filename convention, file decoding, and
//! the publish/retract mapping of events.

use linkerd2_mock_dst::{
    Address, Dst, DstService, FileType, FsAction, FsWatcher, Update,
};

fn addr(s: &str) -> Address {
    Address::from_str(s).unwrap()
}

#[test]
fn file_name_parses_into_key_and_decoder() {
    let (d, ft) = FsWatcher::parse_dst("svc:80.json").unwrap();
    assert_eq!(d.name, "svc");
    assert_eq!(d.port, 80);
    assert_eq!(ft, FileType::Json);
    let (_, ft) = FsWatcher::parse_dst("svc:80.yaml").unwrap();
    assert_eq!(ft, FileType::Yaml);
    let (_, ft) = FsWatcher::parse_dst("svc:80.yml").unwrap();
    assert_eq!(ft, FileType::Yaml);
}

#[test]
fn unsupported_extension_is_skipped() {
    let e = FsWatcher::parse_dst("svc:80.txt").unwrap_err();
    assert_eq!(e.reason(), "invalid file extension");
}

#[test]
fn file_name_without_extension_is_skipped() {
    let e = FsWatcher::parse_dst("svc-80").unwrap_err();
    assert_eq!(e.reason(), "invalid file name");
}

#[test]
fn file_name_with_bad_stem_is_skipped() {
    assert!(FsWatcher::parse_dst("no-port.json").is_err());
}

#[test]
fn modify_plans_a_load_and_delete_a_retract() {
    match FsWatcher::plan_event("svc:80.json", false).unwrap() {
        FsAction::Load(d, ft) => {
            assert_eq!(d.name, "svc");
            assert_eq!(d.port, 80);
            assert_eq!(ft, FileType::Json);
        }
        other => panic!("expected Load, got {:?}", other),
    }
    match FsWatcher::plan_event("svc:80.json", true).unwrap() {
        FsAction::Retract(d) => {
            assert_eq!(d.name, "svc");
            assert_eq!(d.port, 80);
        }
        other => panic!("expected Retract, got {:?}", other),
    }
}

#[test]
fn json_file_decodes_one_record() {
    let contents = "[{\"address\": \"10.0.0.1:80\", \"weight\": 1}]";
    let records = FsWatcher::parse_file(contents, FileType::Json).unwrap();
    assert_eq!(records.len(), 1);
    assert_eq!(records[0].address, addr("10.0.0.1:80"));
    assert_eq!(records[0].weight, 1);
    assert!(!records[0].h2);
    assert!(records[0].metric_labels.is_empty());
    assert!(records[0].tls_identity.is_none());
    assert!(records[0].authority_override.is_none());
}

#[test]
fn json_defaults_apply_when_fields_are_absent() {
    let contents = "[{\"address\": \"10.0.0.1:80\"}]";
    let records = FsWatcher::parse_file(contents, FileType::Json).unwrap();
    assert_eq!(records[0].weight, 10_000);
    assert!(!records[0].h2);
}

#[test]
fn json_decodes_all_fields() {
    let contents = "[{\"address\": \"10.0.0.1:80\", \"h2\": true, \"weight\": 42, \
        \"metric_labels\": {\"zone\": \"west\", \"app\": \"demo\"}, \
        \"tls_identity\": \"id.example\", \"authority_override\": \"auth:80\"}]";
    let records = FsWatcher::parse_file(contents, FileType::Json).unwrap();
    let m = &records[0];
    assert!(m.h2);
    assert_eq!(m.weight, 42);
    // serde_json objects iterate sorted by key.
    assert_eq!(
        m.metric_labels,
        vec![
            ("app".to_string(), "demo".to_string()),
            ("zone".to_string(), "west".to_string()),
        ]
    );
    assert_eq!(m.tls_identity.as_deref(), Some("id.example"));
    assert_eq!(m.authority_override.as_deref(), Some("auth:80"));
}

#[test]
fn yaml_file_decodes_records() {
    let contents = "- address: 10.0.0.1:80\n  h2: true\n- address: 10.0.0.2:80\n  weight: 3\n";
    let records = FsWatcher::parse_file(contents, FileType::Yaml).unwrap();
    assert_eq!(records.len(), 2);
    assert!(records[0].h2);
    assert_eq!(records[0].address, addr("10.0.0.1:80"));
    assert_eq!(records[1].weight, 3);
}

#[test]
fn decode_rejects_malformed_contents() {
    assert!(FsWatcher::parse_file("not json", FileType::Json).is_err());
    assert!(FsWatcher::parse_file("{\"a\": 1}", FileType::Json).is_err());
    assert!(FsWatcher::parse_file("[{\"weight\": 1}]", FileType::Json).is_err());
    assert!(FsWatcher::parse_file("[{\"address\": \"bad\"}]", FileType::Json).is_err());
    assert!(FsWatcher::parse_file("[{\"address\": \"10.0.0.1:80\", \"h2\": \"yes\"}]",
        FileType::Json).is_err());
    assert!(FsWatcher::parse_file(
        "[{\"address\": \"10.0.0.1:80\", \"weight\": 4294967296}]",
        FileType::Json,
    )
    .is_err());
}

#[test]
fn last_record_wins_on_duplicate_addresses() {
    let contents = "[{\"address\": \"10.0.0.1:80\", \"weight\": 1}, \
        {\"address\": \"10.0.0.1:80\", \"weight\": 2}]";
    let records = FsWatcher::parse_file(contents, FileType::Json).unwrap();
    let mut store = DstService::empty();
    let d = Dst::new("svc".to_string(), 80);
    FsWatcher::apply_records(&mut store, Dst::new("svc".to_string(), 80), records);
    let snapshot = store.lookup(&d).unwrap();
    assert_eq!(snapshot.len(), 1);
    assert_eq!(snapshot.find(addr("10.0.0.1:80")).unwrap().weight, 2);
}

#[test]
fn reconciler_mapping_publishes_and_retracts() {
    let mut store = DstService::empty();
    // Writing svc:80.json with one record publishes that key.
    let (d, ft) = FsWatcher::parse_dst("svc:80.json").unwrap();
    let records =
        FsWatcher::parse_file("[{\"address\": \"10.0.0.1:80\", \"weight\": 1}]", ft).unwrap();
    FsWatcher::apply_records(&mut store, d, records);
    let key = Dst::new("svc".to_string(), 80);
    let snapshot = store.lookup(&key).unwrap();
    assert_eq!(snapshot.len(), 1);
    let m = snapshot.find(addr("10.0.0.1:80")).unwrap();
    assert_eq!(m.weight, 1);
    assert!(!m.h2);
    // A subscriber sees the published record.
    let (_sub, out) = store.get("svc:80").unwrap();
    assert!(matches!(&out[0], Update::Add { addrs, .. } if addrs.len() == 1));
    // Deleting the file retracts the key.
    match FsWatcher::plan_event("svc:80.json", true).unwrap() {
        FsAction::Retract(d) => FsWatcher::apply_delete(&mut store, &d),
        other => panic!("expected Retract, got {:?}", other),
    }
    assert!(store.lookup(&key).is_none());
    // Writing svc:80.txt produces no publish at all.
    assert!(FsWatcher::plan_event("svc:80.txt", false).is_err());
}

#[test]
fn watcher_remembers_its_directory() {
    let w = FsWatcher::new("/tmp/endpoints".to_string());
    assert_eq!(w.dir(), "/tmp/endpoints");
}
