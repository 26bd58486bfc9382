use sentrix::diff::{compute, DiffResult};
use sentrix::report::{info_note, render_line, warning_note, Entry, Report, Severity, SeverityCounts};

fn sample_report() -> Report {
    let mut r = Report::new_at(1_000_000_000);
    r.log("preamble");
    r.section("S");
    r.warn("w1");
    r.log("i1");
    r.critical("c1");
    r.section("T");
    r.warn("w2");
    r
}

#[test]
fn new_at_renders_exact_header() {
    let r = Report::new_at(0);
    assert_eq!(r.join(), "scan time: 1970-01-01T00:00:00Z (epoch:0)");
    assert_eq!(r.timestamp_iso(), "1970-01-01T00:00:00Z");
    assert_eq!(r.timestamp_epoch(), 0);
    assert_eq!(r.findings(), 0);
    assert!(r.entries().is_empty());
    assert!(r.sections().is_empty());
}

#[test]
fn join_renders_preamble_sections_and_markers() {
    let r = sample_report();
    assert_eq!(
        r.join(),
        "scan time: 2001-09-09T01:46:40Z (epoch:1000000000)\npreamble\n\n== S ==\n[!] w1\ni1\n[CRIT] c1\n\n== T ==\n[!] w2"
    );
    assert_eq!(r.render_lines().len(), 10);
}

#[test]
fn counters_agree_with_entries() {
    let r = sample_report();
    let c = r.severity_counts();
    assert_eq!(c, SeverityCounts { info: 2, warning: 2, critical: 1 });
    assert_eq!(c.total(), 5);
    assert_eq!(r.entries().len(), 5);
    assert_eq!(r.findings(), c.warning + c.critical);
}

#[test]
fn entries_are_filed_under_their_section() {
    let r = sample_report();
    let e = r.entries();
    assert_eq!(e[0].section, "");
    assert_eq!(e[1].section, "S");
    assert_eq!(e[4].section, "T");
    assert_eq!(r.sections(), &["S".to_string(), "T".to_string()]);
}

#[test]
fn every_entry_is_rendered_exactly_once() {
    let r = sample_report();
    let lines = r.render_lines();
    for e in r.entries() {
        let rendered = e.render();
        assert_eq!(lines.iter().filter(|l| **l == rendered).count(), 1, "{}", rendered);
    }
}

#[test]
fn reopened_section_is_rendered_once_with_all_its_entries() {
    let mut r = Report::new_at(5);
    r.section("A");
    r.log("one");
    r.section("B");
    r.log("two");
    r.section("A");
    r.warn("three");
    assert_eq!(
        r.join(),
        "scan time: 1970-01-01T00:00:05Z (epoch:5)\n\n== A ==\none\n[!] three\n\n== B ==\ntwo"
    );
}

#[test]
fn entries_by_urgency_orders_critical_warning_info() {
    let mut r = Report::new_at(0);
    r.log("low");
    r.critical("bad");
    r.warn("meh");
    r.critical("worse");
    r.log("lower");
    let sorted = r.entries_by_urgency();
    let got: Vec<(Severity, &str)> = sorted.iter().map(|e| (e.severity, e.message.as_str())).collect();
    assert_eq!(
        got,
        vec![
            (Severity::Critical, "bad"),
            (Severity::Critical, "worse"),
            (Severity::Warning, "meh"),
            (Severity::Info, "low"),
            (Severity::Info, "lower"),
        ]
    );
}

#[test]
fn entries_follow_the_calls_in_order() {
    let mut r = Report::new_at(0);
    r.log("a");
    r.section("S");
    r.warn("b");
    r.flag("c");
    r.section("T");
    r.critical("d");
    r.section("S");
    r.log("e");
    let got: Vec<(Severity, &str, &str)> =
        r.entries().iter().map(|e| (e.severity, e.message.as_str(), e.section.as_str())).collect();
    assert_eq!(
        got,
        vec![
            (Severity::Info, "a", ""),
            (Severity::Warning, "b", "S"),
            (Severity::Warning, "c", "S"),
            (Severity::Critical, "d", "T"),
            (Severity::Info, "e", "S"),
        ]
    );
    let c = r.severity_counts();
    assert_eq!(c.info + c.warning + c.critical, r.entries().len() as u32);
    assert_eq!(r.render_lines().iter().filter(|l| *l == "== S ==").count(), 1);
}

#[test]
fn severities_order_and_copies() {
    assert!(Severity::Info < Severity::Warning);
    assert!(Severity::Warning < Severity::Critical);
    let mut r = Report::new_at(0);
    r.warn("w");
    let copy = r.clone();
    assert_eq!(copy.join(), r.join());
    assert_eq!(SeverityCounts::default(), SeverityCounts { info: 0, warning: 0, critical: 0 });
}

#[test]
fn render_line_markers() {
    assert_eq!(render_line(Severity::Info, "x"), "x");
    assert_eq!(render_line(Severity::Warning, "x"), "[!] x");
    assert_eq!(render_line(Severity::Critical, "x"), "[CRIT] x");
    assert_eq!(Severity::Info.label(), "");
    assert_eq!(Severity::Warning.label(), "[!]");
    assert_eq!(Severity::Critical.label(), "[CRIT]");
}

#[test]
fn exit_code_is_two_only_with_findings() {
    let mut r = Report::new_at(0);
    r.log("info only");
    assert_eq!(r.exit_code(), 0);
    r.warn("now a finding");
    assert_eq!(r.exit_code(), 2);
}

#[test]
fn record_notes_by_severity() {
    let mut r = Report::new_at(0);
    r.record(&info_note("i".to_string()));
    r.record(&warning_note("w".to_string()));
    assert_eq!(r.severity_counts(), SeverityCounts { info: 1, warning: 1, critical: 0 });
    assert_eq!(r.findings(), 1);
    assert_eq!(r.entries()[1].message, "w");
}

#[test]
fn from_parts_keeps_what_it_is_given() {
    let entries = vec![Entry {
        severity: Severity::Warning,
        message: "m".to_string(),
        section: "S".to_string(),
    }];
    let counts = SeverityCounts { info: 0, warning: 1, critical: 0 };
    let r = Report::from_parts(7, "iso".to_string(), vec!["S".to_string()], entries, 1, counts);
    assert_eq!(r.timestamp_epoch(), 7);
    assert_eq!(r.timestamp_iso(), "iso");
    assert_eq!(r.findings(), 1);
    assert_eq!(r.join(), "scan time: iso (epoch:7)\n\n== S ==\n[!] m");
}

#[test]
fn report_new_reads_the_clock() {
    let r = Report::new();
    // Any clock this runs on reads later than 2020-01-01.
    assert!(r.timestamp_epoch() > 1_577_836_800);
    assert!(r.timestamp_iso().ends_with('Z'));
    assert_eq!(r.findings(), 0);
}

#[test]
fn diff_text_is_exact() {
    let mut previous = Report::new_at(0);
    previous.warn("kept");
    previous.critical("gone");
    let mut current = Report::new_at(0);
    current.warn("kept");
    current.warn("fresh");
    current.log("noise");
    let d = compute(&previous, &current);
    assert_eq!(
        d.to_text(),
        "== Scan diff ==\nprevious findings: 2\ncurrent findings:  2\nnew findings:      1 (0 critical, 1 warning)\nresolved findings: 1\n\n== New findings (since last scan) ==\n[!] fresh\n\n== Resolved findings (no longer present) ==\n[CRIT] gone\n"
    );
    assert_eq!(d.exit_code(), 2);
}

#[test]
fn diff_against_itself_is_empty() {
    let r = sample_report();
    let d = compute(&r, &r);
    assert!(d.new_findings.is_empty());
    assert!(d.resolved_findings.is_empty());
    assert_eq!(d.previous_findings, d.current_findings);
    assert_eq!(d.exit_code(), 0);
}

#[test]
fn diff_matches_by_severity_and_message_not_section() {
    let mut previous = Report::new_at(0);
    previous.section("A");
    previous.warn("same");
    previous.warn("upgraded");
    let mut current = Report::new_at(0);
    current.section("B");
    current.warn("same");
    current.critical("upgraded");
    let d = compute(&previous, &current);
    assert_eq!(d.new_findings.len(), 1);
    assert_eq!(d.new_findings[0].severity, Severity::Critical);
    assert_eq!(d.resolved_findings.len(), 1);
    assert_eq!(d.resolved_findings[0].severity, Severity::Warning);
    assert_eq!(d.new_critical(), 1);
}

#[test]
fn default_diff_is_empty() {
    let d = DiffResult::default();
    assert_eq!(d.previous_findings, 0);
    assert!(d.new_findings.is_empty());
    assert_eq!(
        d.to_text(),
        "== Scan diff ==\nprevious findings: 0\ncurrent findings:  0\nnew findings:      0 (0 critical, 0 warning)\nresolved findings: 0\n\nNo new findings since last scan.\n"
    );
}
