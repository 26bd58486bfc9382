use sentrix::report::{epoch_to_iso, Report};

#[test]
fn test_epoch_to_iso_known_values() {
    assert_eq!(epoch_to_iso(0), "1970-01-01T00:00:00Z");
    assert_eq!(epoch_to_iso(1_000_000_000), "2001-09-09T01:46:40Z");
    // Leap day.
    assert_eq!(epoch_to_iso(951_782_400), "2000-02-29T00:00:00Z");
    // Non-leap century year: 2100-03-01 follows 2100-02-28.
    assert_eq!(epoch_to_iso(4_107_542_400), "2100-03-01T00:00:00Z");
}

#[test]
fn test_timestamp_line_has_iso_and_epoch() {
    let report = Report::new();
    let out = report.join();
    let first = out.lines().next().unwrap();
    assert!(first.starts_with("scan time: "), "got: {}", first);
    // ISO-8601 UTC timestamp followed by the raw epoch.
    assert!(first.contains("T"), "missing ISO-8601 time: {}", first);
    assert!(first.contains("Z (epoch:"), "got: {}", first);
}

#[test]
fn test_join_matches_entries_and_sections() {
    let mut report = Report::new();
    report.log("preamble");
    report.section("S");
    report.warn("warning line");
    report.critical("critical line");

    let out = report.join();
    assert!(out.contains("== S =="));
    assert!(out.contains("[!] warning line"));
    assert!(out.contains("[CRIT] critical line"));
    // Section header appears exactly once even though state is not duplicated.
    assert_eq!(out.matches("== S ==").count(), 1);
}

#[test]
fn test_repeated_section_title_merges_entries() {
    let mut report = Report::new();
    report.section("Recent");
    report.log("first");
    report.section("Recent");
    report.log("second");

    let out = report.join();
    assert_eq!(out.matches("== Recent ==").count(), 1);
    let first = out.find("first").unwrap();
    let second = out.find("second").unwrap();
    assert!(first < second, "entry order must be preserved");
}
