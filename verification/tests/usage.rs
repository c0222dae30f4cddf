use ssh_menu::config::model::{Config, Host};
use ssh_menu::config::usage::{activity, age, last_use_text, Activity};

/// 2026-01-01T00:00:00Z in Unix seconds.
const NEW_YEAR: i64 = 1_767_225_600;

fn hst(name: &str, last_used: Option<&str>, jump: Option<&str>) -> Host {
    Host {
        name: name.to_string(),
        host: "10.0.0.1".to_string(),
        user: "root".to_string(),
        port: 22,
        key: None,
        group: None,
        tags: vec![],
        jump: jump.map(|j| j.to_string()),
        note: None,
        extra: vec![],
        last_used: last_used.map(|t| t.to_string()),
        use_count: 0,
    }
}

#[test]
fn age_buckets() {
    assert_eq!(age(0), "just now");
    assert_eq!(age(59), "just now");
    assert_eq!(age(60), "1m ago");
    assert_eq!(age(3599), "59m ago");
    assert_eq!(age(3600), "1h ago");
    assert_eq!(age(86399), "23h ago");
    assert_eq!(age(86400), "1d ago");
    assert_eq!(age(2_591_999), "29d ago");
    assert_eq!(age(2_592_000), "1mo ago");
    assert_eq!(age(31_535_999), "12mo ago");
    assert_eq!(age(31_536_000), "1y ago");
    assert_eq!(age(u64::MAX), format!("{}y ago", u64::MAX / 31_536_000));
}

#[test]
fn last_use_text_reads_the_stamp() {
    assert_eq!(last_use_text("2026-01-01T00:00:00Z", NEW_YEAR + 7200, 0), "2h ago");
    assert_eq!(last_use_text("2026-01-01T02:00:00+02:00", NEW_YEAR + 7200, 0), "2h ago");
    assert_eq!(last_use_text("2026-01-01T00:00:00Z", NEW_YEAR + 3 * 86400, 0), "3d ago");
    assert_eq!(last_use_text("2026-01-01T00:00:00Z", NEW_YEAR - 100, 0), "just now");
    assert_eq!(last_use_text("yesterday", NEW_YEAR, 0), "yesterday");
}

#[test]
fn last_use_text_counts_whole_seconds_of_the_exact_time() {
    // 59.9 s after a stamp with a fraction: still under a minute
    assert_eq!(last_use_text("2026-01-01T00:00:00.5Z", NEW_YEAR + 60, 400_000_000), "just now");
    assert_eq!(last_use_text("2026-01-01T00:00:00.5Z", NEW_YEAR + 60, 500_000_000), "1m ago");
}

#[test]
fn activity_of_hosts() {
    let stamp = Some("2026-01-01T00:00:00Z");
    assert_eq!(activity(&hst("a", stamp, None), NEW_YEAR + 3600, 0), Activity::Today);
    assert_eq!(activity(&hst("a", stamp, None), NEW_YEAR + 86_399, 999_999_999), Activity::Today);
    assert_eq!(activity(&hst("a", stamp, None), NEW_YEAR + 86_400, 0), Activity::ThisWeek);
    assert_eq!(activity(&hst("a", stamp, None), NEW_YEAR - 86_400, 0), Activity::Today);
    assert_eq!(activity(&hst("a", stamp, Some("b")), NEW_YEAR + 8 * 86_400, 0), Activity::Quiet);
    assert_eq!(activity(&hst("a", Some("soon"), None), NEW_YEAR, 0), Activity::Quiet);
    assert_eq!(activity(&hst("a", None, Some("b")), NEW_YEAR, 0), Activity::Jumps);
    assert_eq!(activity(&hst("a", None, None), NEW_YEAR, 0), Activity::Quiet);
}

#[test]
fn activity_boundary_uses_the_exact_time() {
    // 23 h 59 min 59.5 s after a stamp at .5 s: under a day by whole hours
    let stamp = Some("2026-01-01T00:00:00.5Z");
    assert_eq!(activity(&hst("a", stamp, None), NEW_YEAR + 86_400, 0), Activity::Today);
    assert_eq!(activity(&hst("a", stamp, None), NEW_YEAR + 86_400, 500_000_000), Activity::ThisWeek);
}

#[test]
fn record_use_marks_the_first_host_of_that_name() {
    let mut cfg = Config {
        hosts: vec![hst("web", None, None), hst("db", None, None), hst("db", None, None)],
    };
    cfg.hosts[1].use_count = 4;
    assert!(cfg.record_use("db", "2026-01-01T00:00:00Z".to_string()));
    assert_eq!(cfg.hosts[1].use_count, 5);
    assert_eq!(cfg.hosts[1].last_used.as_deref(), Some("2026-01-01T00:00:00Z"));
    assert_eq!(cfg.hosts[2].use_count, 0);
    assert_eq!(cfg.hosts[2].last_used, None);
    assert_eq!(cfg.hosts[0].use_count, 0);
}

#[test]
fn record_use_without_such_host_changes_nothing() {
    let mut cfg = Config { hosts: vec![hst("web", None, None)] };
    assert!(!cfg.record_use("db", "2026-01-01T00:00:00Z".to_string()));
    assert_eq!(cfg.hosts[0].use_count, 0);
    assert_eq!(cfg.hosts[0].last_used, None);
}

#[test]
fn record_use_count_stays_at_the_largest() {
    let mut cfg = Config { hosts: vec![hst("web", None, None)] };
    cfg.hosts[0].use_count = u32::MAX;
    assert!(cfg.record_use("web", "2026-01-01T00:00:00Z".to_string()));
    assert_eq!(cfg.hosts[0].use_count, u32::MAX);
}
