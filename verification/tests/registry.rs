use ups::errors::UpsError;
use ups::registry::Registry;
use ups::runner::normalize_output;

fn resolved(p: &str) -> Option<String> {
    Some(p.to_string())
}

#[test]
fn insert_sets_both_values_to_none() {
    let mut r = Registry::new();
    r.insert("alpha".to_string(), resolved("/bin/check-alpha")).unwrap();
    assert_eq!(r.snapshot_value_of("alpha").unwrap(), None);
    assert_eq!(r.latest_value_of("alpha").unwrap(), None);
    assert_eq!(r.script_path_of("alpha").unwrap(), "/bin/check-alpha");
}

#[test]
fn insert_unresolved_path_fails_and_changes_nothing() {
    let mut r = Registry::new();
    r.insert("alpha".to_string(), resolved("/bin/check-alpha")).unwrap();
    let err = r.insert("beta".to_string(), None).unwrap_err();
    assert_eq!(err, UpsError::ScriptPathUnresolved);
    assert_eq!(r.len(), 1);
    assert!(!r.contains("beta"));
    assert_eq!(r.script_path_of("alpha").unwrap(), "/bin/check-alpha");
}

#[test]
fn insert_replaces_existing_entry_entirely() {
    let mut r = Registry::new();
    r.insert("alpha".to_string(), resolved("/old")).unwrap();
    r.record_snapshot("alpha", Some("1.0".to_string())).unwrap();
    r.insert("alpha".to_string(), resolved("/new")).unwrap();
    assert_eq!(r.len(), 1);
    assert_eq!(r.script_path_of("alpha").unwrap(), "/new");
    assert_eq!(r.snapshot_value_of("alpha").unwrap(), None);
    assert_eq!(r.latest_value_of("alpha").unwrap(), None);
}

#[test]
fn snapshot_records_observed_value() {
    let mut r = Registry::new();
    r.insert("alpha".to_string(), resolved("/bin/check-alpha")).unwrap();
    let observed = normalize_output(true, "1.2.3\n");
    assert_eq!(observed, Some("1.2.3".to_string()));
    r.record_snapshot("alpha", observed).unwrap();
    assert_eq!(r.snapshot_value_of("alpha").unwrap(), Some("1.2.3".to_string()));
    assert_eq!(r.latest_value_of("alpha").unwrap(), Some("1.2.3".to_string()));
}

#[test]
fn snapshot_of_no_value_is_valid() {
    let mut r = Registry::new();
    r.insert("alpha".to_string(), resolved("/bin/check-alpha")).unwrap();
    r.record_latest("alpha", Some("2.0".to_string()));
    r.record_snapshot("alpha", normalize_output(false, "2.0\n")).unwrap();
    assert_eq!(r.snapshot_value_of("alpha").unwrap(), None);
    assert_eq!(r.latest_value_of("alpha").unwrap(), None);
}

#[test]
fn snapshot_unregistered_fails_and_changes_nothing() {
    let mut r = Registry::new();
    let err = r.record_snapshot("ghost", Some("1.0".to_string())).unwrap_err();
    assert_eq!(err, UpsError::NotRegistered);
    assert_eq!(r.len(), 0);
}

#[test]
fn snapshot_twice_yields_same_pair() {
    let mut r = Registry::new();
    r.insert("alpha".to_string(), resolved("/bin/check-alpha")).unwrap();
    r.record_snapshot("alpha", Some("3.1".to_string())).unwrap();
    let snap1 = r.snapshot_value_of("alpha").unwrap();
    let latest1 = r.latest_value_of("alpha").unwrap();
    r.record_snapshot("alpha", Some("3.1".to_string())).unwrap();
    assert_eq!(r.snapshot_value_of("alpha").unwrap(), snap1);
    assert_eq!(r.latest_value_of("alpha").unwrap(), latest1);
}

#[test]
fn get_on_unregistered_name_fails_with_lookup_error() {
    let r = Registry::new();
    assert_eq!(r.latest_value_of("ghost").unwrap_err(), UpsError::NotRegistered);
    assert_eq!(r.script_path_of("ghost").unwrap_err(), UpsError::NotRegistered);
}

#[test]
fn refresh_isolates_one_failure_from_another_success() {
    let mut r = Registry::new();
    r.insert("bad".to_string(), resolved("/bin/check-bad")).unwrap();
    r.insert("good".to_string(), resolved("/bin/check-good")).unwrap();
    let results = vec![
        ("bad".to_string(), normalize_output(false, "")),
        ("good".to_string(), normalize_output(true, "2.0\n")),
    ];
    r.apply_results(&results);
    assert_eq!(r.latest_value_of("bad").unwrap(), None);
    assert_eq!(r.latest_value_of("good").unwrap(), Some("2.0".to_string()));
}

#[test]
fn refresh_leaves_snapshots_untouched() {
    let mut r = Registry::new();
    r.insert("alpha".to_string(), resolved("/a")).unwrap();
    r.record_snapshot("alpha", Some("1.0".to_string())).unwrap();
    r.apply_results(&vec![("alpha".to_string(), Some("2.0".to_string()))]);
    assert_eq!(r.snapshot_value_of("alpha").unwrap(), Some("1.0".to_string()));
    assert_eq!(r.latest_value_of("alpha").unwrap(), Some("2.0".to_string()));
}

#[test]
fn refresh_skips_names_no_longer_registered() {
    let mut r = Registry::new();
    r.insert("alpha".to_string(), resolved("/a")).unwrap();
    r.apply_results(&vec![("ghost".to_string(), Some("9.9".to_string()))]);
    assert_eq!(r.len(), 1);
    assert!(!r.contains("ghost"));
    assert_eq!(r.latest_value_of("alpha").unwrap(), None);
}

#[test]
fn remove_reports_presence_and_removes() {
    let mut r = Registry::new();
    r.insert("alpha".to_string(), resolved("/a")).unwrap();
    assert!(r.remove("alpha"));
    assert_eq!(r.len(), 0);
    assert!(!r.remove("alpha"));
}

#[test]
fn record_latest_on_unregistered_is_ignored() {
    let mut r = Registry::new();
    r.record_latest("ghost", Some("1.0".to_string()));
    assert_eq!(r.len(), 0);
}

#[test]
fn error_messages_are_stable() {
    assert_eq!(UpsError::NotRegistered.message(), "app is not registered");
    assert_eq!(UpsError::ScriptPathUnresolved.message(), "script path could not be resolved");
    assert_eq!(UpsError::ParseError.message(), "error while parsing data file");
}

#[test]
fn usage_names_every_command() {
    let text = ups::usage();
    assert!(text.contains("insert"));
    assert!(text.contains("snapshot"));
    assert!(text.contains("get"));
    assert!(text.contains("show"));
}
