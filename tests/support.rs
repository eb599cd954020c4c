use chat_events::api::Error;
use chat_events::context::{env_bool, trimmed_setting_is_on};
use chat_events::janitor::{prune_cutoff, stale, stale_score_bound, HOUR_MS, RETENTION_MS};

#[test]
fn prune_keeps_last_day() {
    let now: i64 = 1_700_000_000_000;
    let cutoff = prune_cutoff(now);
    assert_eq!(cutoff, now - 24 * HOUR_MS);
    assert!(stale(now - 25 * HOUR_MS, cutoff));
    assert!(!stale(now - HOUR_MS, cutoff));
    assert!(!stale(cutoff, cutoff));
    assert_eq!(RETENTION_MS, 24 * HOUR_MS);
}

#[test]
fn prune_cutoff_saturates() {
    assert_eq!(prune_cutoff(i64::MIN + 5), i64::MIN);
    assert_eq!(stale_score_bound(1_000), "(1000");
    assert_eq!(stale_score_bound(-3), "(-3");
}

#[test]
fn error_constructors() {
    let e = Error::not_found();
    assert_eq!((e.kind, e.message.as_str(), e.status_code), ("error", "Not found requested resources.", 404));
    let e = Error::internal();
    assert_eq!((e.message.as_str(), e.status_code), ("Server internal error.", 500));
    let e = Error::bad_request();
    assert_eq!((e.message.as_str(), e.status_code), ("Bad request.", 400));
    let e = Error::method_not_allowed();
    assert_eq!((e.message.as_str(), e.status_code), ("Method not allowed", 405));
    let e = Error::new("conflict".to_string(), 409);
    assert_eq!((e.kind, e.message.as_str(), e.status_code), ("error", "conflict", 409));
}

#[test]
fn unexpected_error_hides_detail_unless_debug() {
    let e = Error::unexpected("disk on fire", false);
    assert_eq!((e.message.as_str(), e.status_code), ("Server internal error.", 500));
    let e = Error::unexpected("disk on fire", true);
    assert_eq!((e.message.as_str(), e.status_code), ("disk on fire", 500));
}

#[test]
fn env_bool_reads_settings() {
    assert!(!env_bool(""));
    assert!(!env_bool("   "));
    assert!(!env_bool(" 0 "));
    assert!(!env_bool("false"));
    assert!(!env_bool(" FaLsE\n"));
    assert!(env_bool("1"));
    assert!(env_bool("true"));
    assert!(env_bool("00"));
    assert!(env_bool("no"));
}

#[test]
fn trimmed_setting_values() {
    assert!(!trimmed_setting_is_on(""));
    assert!(!trimmed_setting_is_on("0"));
    assert!(!trimmed_setting_is_on("FALSE"));
    assert!(trimmed_setting_is_on(" 0"));
    assert!(trimmed_setting_is_on("yes"));
}
