use sentrix::config;
use sentrix::diff;
use sentrix::report::{Report, Severity};

// ===== Report tests =====

#[test]
fn test_report_section_and_log() {
    let mut report = Report::new();
    report.section("Test Section");
    report.log("a log line");
    report.log("another log line");

    let output = report.join();
    assert!(output.contains("== Test Section =="));
    assert!(output.contains("a log line"));
    assert!(output.contains("another log line"));
    assert_eq!(report.findings(), 0);
}

#[test]
fn test_report_flag_increments_findings() {
    let mut report = Report::new();
    report.flag("suspicious thing 1");
    report.flag("suspicious thing 2");
    assert_eq!(report.findings(), 2);

    let output = report.join();
    assert!(output.contains("[!] suspicious thing 1"));
    assert!(output.contains("[!] suspicious thing 2"));
}

#[test]
fn test_report_severity_markers_and_counts() {
    let mut report = Report::new();
    report.log("info line");
    report.warn("warning line");
    report.critical("critical line");

    assert_eq!(report.findings(), 2);
    assert_eq!(report.severity_counts().info, 1);
    assert_eq!(report.severity_counts().warning, 1);
    assert_eq!(report.severity_counts().critical, 1);

    let out = report.join();
    assert!(out.contains("info line"));
    assert!(out.contains("[!] warning line"));
    assert!(out.contains("[CRIT] critical line"));
    assert!(!out.contains("[CRIT] warning line"));
}

#[test]
fn test_report_json_entries_sorted_by_severity() {
    let mut report = Report::new();
    report.log("low");
    report.critical("bad");
    report.warn("meh");

    // The JSON form lists the entries in this order.
    let entries = report.entries_by_urgency();
    let crit = entries.iter().position(|e| e.severity == Severity::Critical).unwrap();
    let warn = entries.iter().position(|e| e.severity == Severity::Warning).unwrap();
    let info = entries.iter().position(|e| e.severity == Severity::Info).unwrap();
    assert!(crit < warn, "critical should sort before warning");
    assert!(warn < info, "warning should sort before info");
}

// ===== Diff tests =====

#[test]
fn test_diff_computes_new_and_resolved() {
    let mut previous = Report::new();
    previous.section("S");
    previous.warn("still here");
    previous.critical("gone now");

    let mut current = Report::new();
    current.section("S");
    current.warn("still here");
    current.critical("brand new");

    let result = diff::compute(&previous, &current);
    assert_eq!(result.previous_findings, 2);
    assert_eq!(result.current_findings, 2);
    assert_eq!(result.new_findings.len(), 1);
    assert_eq!(result.new_findings[0].message, "brand new");
    assert_eq!(result.new_findings[0].severity, Severity::Critical);
    assert_eq!(result.resolved_findings.len(), 1);
    assert_eq!(result.resolved_findings[0].message, "gone now");
    assert_eq!(result.new_critical(), 1);
    assert_eq!(result.new_warning(), 0);
}

#[test]
fn test_diff_no_changes() {
    let mut previous = Report::new();
    previous.warn("same finding");

    let mut current = Report::new();
    current.warn("same finding");

    let result = diff::compute(&previous, &current);
    assert!(result.new_findings.is_empty());
    assert!(result.resolved_findings.is_empty());
    assert_eq!(
        result.to_text().contains("No new findings since last scan"),
        true
    );
}

#[test]
fn test_diff_ignores_info_entries() {
    let mut previous = Report::new();
    previous.log("info line");

    let mut current = Report::new();
    current.log("info line changed");

    let result = diff::compute(&previous, &current);
    assert_eq!(result.new_findings.len(), 0);
    assert_eq!(result.resolved_findings.len(), 0);
}

// ===== Config tests =====

#[test]
fn test_suspicious_dirs_not_empty() {
    let dirs = config::suspicious_dirs();
    assert!(!dirs.is_empty(), "suspicious_dirs() should not be empty");
}

#[test]
fn test_recent_file_days_default() {
    assert_eq!(config::RECENT_FILE_DAYS, 3);
}

// ===== Pattern tests =====

#[test]
fn test_windows_patterns_non_empty() {
    assert!(!config::SUSPICIOUS_AUTORUN_PATTERNS.is_empty());
    assert!(!config::SUSPICIOUS_TASK_ACTIONS.is_empty());
    assert!(!config::SUSPICIOUS_POWERSHELL_PATTERNS.is_empty());
}

#[test]
fn test_macos_patterns_non_empty() {
    assert!(!config::SUSPICIOUS_PLIST_PATTERNS.is_empty());
    assert!(!config::SUSPICIOUS_CRON_PATTERNS.is_empty());
    assert!(!config::SUSPICIOUS_LAUNCHCTL_OUTPUT.is_empty());
}

#[test]
fn test_linux_patterns_non_empty() {
    assert!(!config::SHELL_RC_FILES.is_empty());
    assert!(!config::PERSISTENCE_SCAN_DIRS.is_empty());
}
