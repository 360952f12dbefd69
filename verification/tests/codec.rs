use ups::codec::{parse_registry, render_registry};
use ups::errors::UpsError;
use ups::registry::Registry;

fn resolved(p: &str) -> Option<String> {
    Some(p.to_string())
}

#[test]
fn empty_registry_renders_to_empty_file() {
    let r = Registry::new();
    assert_eq!(render_registry(&r), "");
}

#[test]
fn one_entry_renders_to_the_exact_line() {
    let mut r = Registry::new();
    r.insert("alpha".to_string(), resolved("/bin/check-alpha")).unwrap();
    assert_eq!(render_registry(&r), "alpha\tNONE\tNONE\t/bin/check-alpha\t\n");
}

#[test]
fn values_render_verbatim() {
    let mut r = Registry::new();
    r.insert("alpha".to_string(), resolved("/a")).unwrap();
    r.record_snapshot("alpha", Some("1.0".to_string())).unwrap();
    r.record_latest("alpha", Some("2.0".to_string()));
    assert_eq!(render_registry(&r), "alpha\t1.0\t2.0\t/a\t\n");
}

#[test]
fn three_records_round_trip() {
    let mut r = Registry::new();
    r.insert("alpha".to_string(), resolved("/bin/a")).unwrap();
    r.insert("beta".to_string(), resolved("/bin/b")).unwrap();
    r.insert("gamma".to_string(), resolved("/bin/c")).unwrap();
    r.record_snapshot("beta", Some("1.2.3".to_string())).unwrap();
    r.record_latest("gamma", Some("7".to_string()));
    let saved = render_registry(&r);
    let loaded = parse_registry(&saved).unwrap();
    assert_eq!(loaded.len(), 3);
    assert_eq!(loaded.script_path_of("alpha").unwrap(), "/bin/a");
    assert_eq!(loaded.snapshot_value_of("beta").unwrap(), Some("1.2.3".to_string()));
    assert_eq!(loaded.latest_value_of("beta").unwrap(), Some("1.2.3".to_string()));
    assert_eq!(loaded.snapshot_value_of("gamma").unwrap(), None);
    assert_eq!(loaded.latest_value_of("gamma").unwrap(), Some("7".to_string()));
    assert_eq!(render_registry(&loaded), saved);
}

#[test]
fn values_with_spaces_round_trip() {
    let mut r = Registry::new();
    r.insert("app one".to_string(), resolved("/opt/my tool/check")).unwrap();
    r.record_snapshot("app one", Some("1.0 beta 2".to_string())).unwrap();
    let saved = render_registry(&r);
    let loaded = parse_registry(&saved).unwrap();
    assert_eq!(loaded.snapshot_value_of("app one").unwrap(), Some("1.0 beta 2".to_string()));
    assert_eq!(loaded.script_path_of("app one").unwrap(), "/opt/my tool/check");
    assert_eq!(render_registry(&loaded), saved);
}

#[test]
fn empty_file_loads_as_empty_registry() {
    let loaded = parse_registry("").unwrap();
    assert_eq!(loaded.len(), 0);
}

#[test]
fn line_missing_a_field_fails_the_whole_load() {
    let err = parse_registry("alpha\tNONE\tNONE\n").unwrap_err();
    assert_eq!(err, UpsError::ParseError);
    let err = parse_registry("alpha\t1.0\t2.0\t/a\t\nbeta\t1.0\n").unwrap_err();
    assert_eq!(err, UpsError::ParseError);
}

#[test]
fn blank_line_fails_the_load() {
    assert_eq!(parse_registry("\n").unwrap_err(), UpsError::ParseError);
    assert_eq!(
        parse_registry("a\tNONE\tNONE\t/x\t\n\n").unwrap_err(),
        UpsError::ParseError
    );
}

#[test]
fn trailing_tab_is_tolerated_not_required() {
    let with = parse_registry("a\t1.0\t2.0\t/x\t\n").unwrap();
    let without = parse_registry("a\t1.0\t2.0\t/x\n").unwrap();
    assert_eq!(with.script_path_of("a").unwrap(), "/x");
    assert_eq!(without.script_path_of("a").unwrap(), "/x");
}

#[test]
fn final_line_without_newline_is_tolerated() {
    let loaded = parse_registry("a\tNONE\t3.0\t/x\t").unwrap();
    assert_eq!(loaded.latest_value_of("a").unwrap(), Some("3.0".to_string()));
}

#[test]
fn none_token_loads_as_absent_value() {
    let loaded = parse_registry("a\tNONE\t1.0\t/x\t\n").unwrap();
    assert_eq!(loaded.snapshot_value_of("a").unwrap(), None);
    assert_eq!(loaded.latest_value_of("a").unwrap(), Some("1.0".to_string()));
}

#[test]
fn later_duplicate_name_wins() {
    let loaded = parse_registry("a\t1.0\t1.0\t/old\t\na\t2.0\t2.0\t/new\t\n").unwrap();
    assert_eq!(loaded.len(), 1);
    assert_eq!(loaded.script_path_of("a").unwrap(), "/new");
    assert_eq!(loaded.snapshot_value_of("a").unwrap(), Some("2.0".to_string()));
}

#[test]
fn report_shows_sentinel_and_up_to_date_signal() {
    let mut r = Registry::new();
    r.insert("stale".to_string(), resolved("/s")).unwrap();
    r.insert("fresh".to_string(), resolved("/f")).unwrap();
    r.record_snapshot("stale", Some("1.0".to_string())).unwrap();
    r.record_latest("stale", Some("2.0".to_string()));
    r.record_snapshot("fresh", Some("1.0".to_string())).unwrap();
    let rows = r.report();
    assert_eq!(rows.len(), 2);
    assert_eq!(rows[0].name, "stale");
    assert_eq!(rows[0].snapshot, "1.0");
    assert_eq!(rows[0].latest, "2.0");
    assert_eq!(rows[0].script_path, "/s");
    assert!(!rows[0].up_to_date);
    assert_eq!(rows[1].name, "fresh");
    assert!(rows[1].up_to_date);
}

#[test]
fn report_of_never_observed_app_is_up_to_date() {
    let mut r = Registry::new();
    r.insert("alpha".to_string(), resolved("/a")).unwrap();
    let rows = r.report();
    assert_eq!(rows[0].snapshot, "NONE");
    assert_eq!(rows[0].latest, "NONE");
    assert!(rows[0].up_to_date);
}
