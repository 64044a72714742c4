use tali::update_check::{
    cache_is_fresh, check_now, flag_enabled, latest_version_from, manual_status_lines,
    parse_latest_version, record_check, record_notice, release_metadata_url, should_notify,
    status_for_latest, LatestVersionError, UpdateCheckStatus,
};
use tali::cleanup::Timestamp;

#[test]
fn parses_github_latest_release_json() {
    let version = parse_latest_version(r#"{"tag_name":"v0.1.5"}"#).unwrap();
    assert_eq!(version, "0.1.5");
}

#[test]
fn parses_plain_tag_output() {
    let version = parse_latest_version("v0.2.0\n").unwrap();
    assert_eq!(version, "0.2.0");
}

#[test]
fn release_metadata_edge_cases() {
    assert_eq!(parse_latest_version("  \n "), Err(LatestVersionError::Empty));
    assert_eq!(parse_latest_version("{not json"), Err(LatestVersionError::Json));
    assert_eq!(parse_latest_version("{\"name\":\"x\"}").unwrap(), "{\"name\":\"x\"}");
    assert_eq!(parse_latest_version("{\"tag_name\":7}").unwrap(), "{\"tag_name\":7}");
    assert_eq!(parse_latest_version("{\"tag_name\":7}\nv1"), Err(LatestVersionError::Json));
    assert_eq!(
        latest_version_from(" {x} ", Some(Some(vec![("tag_name".to_string(), Some("vv3.0".to_string()))]))).unwrap(),
        "3.0"
    );
    assert_eq!(latest_version_from("{x}", None), Err(LatestVersionError::Json));
    assert_eq!(latest_version_from("v1.2\r\nother", None).unwrap(), "1.2");
}

fn at(secs: i64, nanos: u32) -> Timestamp {
    Timestamp { secs, nanos }
}

#[test]
fn suppresses_repeated_update_notifications_for_same_version() {
    let now = at(1_700_000_000, 0);
    let cache = record_check(None, now, Some("9.9.9".to_string()));
    assert_eq!(cache.latest_version.as_deref(), Some("9.9.9"));

    assert!(should_notify(Some(&cache), now, "9.9.9"));
    let cache = record_notice(Some(cache), now, "9.9.9").unwrap();
    assert!(!should_notify(Some(&cache), now, "9.9.9"));
    assert!(should_notify(Some(&cache), now, "9.9.10"));
}

#[test]
fn notifies_again_after_a_day() {
    let noticed = at(1_700_000_000, 500);
    let cache = record_notice(Some(record_check(None, noticed, Some("1.0.0".to_string()))), noticed, "1.0.0").unwrap();
    assert!(!should_notify(Some(&cache), at(1_700_086_400, 499), "1.0.0"));
    assert!(should_notify(Some(&cache), at(1_700_086_400, 500), "1.0.0"));
    let rechecked = record_check(Some(cache), at(1_700_000_100, 0), Some("1.0.0".to_string()));
    assert_eq!(rechecked.notified_version.as_deref(), Some("1.0.0"));
    assert!(!should_notify(Some(&rechecked), at(1_700_000_200, 0), "1.0.0"));
    assert!(should_notify(None, noticed, "1.0.0"));
    assert_eq!(record_notice(None, noticed, "1.0.0"), None);
    assert!(cache_is_fresh(86_399));
    assert!(!cache_is_fresh(86_400));
}

#[test]
fn status_compares_with_this_build() {
    assert_eq!(status_for_latest(None), UpdateCheckStatus::Unknown);
    assert_eq!(status_for_latest(Some("0.1.3")), UpdateCheckStatus::UpToDate);
    assert_eq!(
        status_for_latest(Some("0.1.4")),
        UpdateCheckStatus::UpdateAvailable { latest_version: "0.1.4".to_string() }
    );
    assert_eq!(check_now(true, Some("9.0.0")), UpdateCheckStatus::Disabled);
    assert_eq!(manual_status_lines(&UpdateCheckStatus::Unknown), vec!["Could not check for updates."]);
}

#[test]
fn flags_and_urls() {
    assert!(flag_enabled(Some("TRUE")));
    assert!(flag_enabled(Some("on")));
    assert!(!flag_enabled(Some(" 1")));
    assert!(!flag_enabled(None));
    assert_eq!(release_metadata_url("a/b"), "https://api.github.com/repos/a/b/releases/latest");
}
