//! The decisions of the Linux checks: which `/proc` entries are processes,
//! which executables are suspicious, which cron lines count, and which shell
//! start-up files hold a download-and-execute or reverse-shell pattern.
use vstd::prelude::*;
use crate::config::{under_any, path_is_suspicious, path_starts_with, PERSISTENCE_SCAN_DIRS, SHELL_RC_FILES};
use crate::config_loader::{choose_list, chosen_list, UserConfig};
use crate::report::{critical_note, info_note, notes_view, push_note, strings_view, warning_note, Note, Severity};
use crate::text::{
    lemma_filter_map_empty, lemma_filter_map_step,
    chars_of, has_substring, lines, lines_of, lower_text, str_contains, string_from_chars,
    to_lowercase, trim, trimmed_chars,
};

verus! {

/// Every character of `s` is an ASCII digit.
pub open spec fn all_ascii_digits(s: Seq<char>) -> bool {
    forall|i: int| 0 <= i < s.len() ==> '0' <= #[trigger] s[i] <= '9'
}

/// Whether a `/proc` entry name is all ASCII digits (a process id).
pub fn is_pid_entry(name: &str) -> (r: bool)
    ensures
        r == all_ascii_digits(name@),
{
    let v = chars_of(name);
    let mut i: usize = 0;
    while i < v.len()
        invariant
            v@ == name@,
            i <= v@.len(),
            forall|k: int| 0 <= k < i ==> '0' <= #[trigger] v@[k] <= '9',
        decreases v@.len() - i,
    {
        if !('0' <= v[i] && v[i] <= '9') {
            return false;
        }
        i += 1;
    }
    true
}

/// The findings for process `pid` running `exe`: one when `exe` lies under a
/// suspicious directory, one when it is a deleted binary; none for an
/// unknown (empty) executable.
pub open spec fn process_findings_spec(pid: Seq<char>, exe: Seq<char>, dirs: Seq<Seq<char>>) -> Seq<Seq<char>> {
    if exe.len() == 0 {
        Seq::empty()
    } else {
        (if under_any(exe, dirs) {
            seq!["PID "@ + pid + " running from suspicious location: "@ + exe]
        } else {
            Seq::<Seq<char>>::empty()
        }) + (if has_substring(exe, "(deleted)"@) {
            seq!["PID "@ + pid + " is executing a deleted binary: "@ + exe + " \u{2014} common dropper/rootkit trick"@]
        } else {
            Seq::<Seq<char>>::empty()
        })
    }
}

/// The warnings to raise for process `pid` whose executable is `exe`.
pub fn process_findings(pid: &str, exe: &str, sus_dirs: &[String]) -> (r: Vec<String>)
    ensures
        strings_view(r@) == process_findings_spec(pid@, exe@, strings_view(sus_dirs@)),
{
    let mut out: Vec<String> = Vec::new();
    if exe.is_empty() {
        assert(strings_view(out@) =~= Seq::<Seq<char>>::empty());
        return out;
    }
    let ghost first: Seq<Seq<char>> = Seq::empty();
    if path_is_suspicious(exe, sus_dirs) {
        let mut m = String::new();
        m.append("PID ");
        m.append(pid);
        m.append(" running from suspicious location: ");
        m.append(exe);
        out.push(m);
        proof { first = seq![m@]; }
    }
    assert(strings_view(out@) =~= first);
    if str_contains(exe, "(deleted)") {
        let mut m = String::new();
        m.append("PID ");
        m.append(pid);
        m.append(" is executing a deleted binary: ");
        m.append(exe);
        m.append(" \u{2014} common dropper/rootkit trick");
        let ghost before = out@;
        out.push(m);
        assert(strings_view(out@) =~= strings_view(before).push(m@));
    }
    assert(strings_view(out@) =~= process_findings_spec(pid@, exe@, strings_view(sus_dirs@)));
    out
}

/// A cron line counts when, trimmed, it is neither blank nor a comment.
pub open spec fn cron_line_counts(t: Seq<char>) -> bool {
    t.len() > 0 && t[0] != '#'
}

/// The info lines for a system cron file read from `source`: one per
/// counted line.
pub open spec fn cron_file_scan(ls: Seq<Seq<char>>, source: Seq<char>) -> Seq<(Severity, Seq<char>)>
    decreases ls.len(),
{
    if ls.len() == 0 {
        Seq::empty()
    } else {
        let rest = cron_file_scan(ls.drop_last(), source);
        let t = trim(ls.last());
        if cron_line_counts(t) {
            rest.push((Severity::Info, "cron ("@ + source + "): "@ + t))
        } else {
            rest
        }
    }
}

/// The cron notes of a file, for all lines and sources: one info note per
/// line whose trimmed text is non-empty and does not start with `#`, in
/// order, reading `cron (<source>): <trimmed line>`.
pub proof fn lemma_cron_file_scan(ls: Seq<Seq<char>>, source: Seq<char>)
    ensures
        cron_file_scan(ls, source) == ls.filter(|l: Seq<char>| trim(l).len() > 0 && trim(l)[0] != '#').map_values(
            |l: Seq<char>| (Severity::Info, "cron ("@ + source + "): "@ + trim(l)),
        ),
    decreases ls.len(),
{
    let p = |l: Seq<char>| trim(l).len() > 0 && trim(l)[0] != '#';
    let f = |l: Seq<char>| (Severity::Info, "cron ("@ + source + "): "@ + trim(l));
    if ls.len() == 0 {
        lemma_filter_map_empty(ls, p, f);
    } else {
        lemma_cron_file_scan(ls.drop_last(), source);
        lemma_filter_map_step(ls, p, f);
    }
}

/// The notes to record for a system cron file (`/etc/crontab`,
/// `/etc/cron.d/*`) whose path is `source`.
pub fn cron_file_notes(text: &str, source: &str) -> (r: Vec<Note>)
    ensures
        notes_view(r@) == cron_file_scan(lines(text@), source@),
{
    let ls = lines_of(text);
    let ghost all = lines(text@);
    let mut out: Vec<Note> = Vec::new();
    let mut i: usize = 0;
    while i < ls.len()
        invariant
            all == lines(text@),
            ls@.len() == all.len(),
            forall|k: int| 0 <= k < ls@.len() ==> #[trigger] ls@[k]@ == all[k],
            i <= ls@.len(),
            notes_view(out@) == cron_file_scan(all.take(i as int), source@),
        decreases ls@.len() - i,
    {
        assert(all.take(i + 1).drop_last() =~= all.take(i as int));
        assert(all.take(i + 1).last() == all[i as int]);
        let raw = chars_of(ls[i].as_str());
        let tv = trimmed_chars(&raw);
        if tv.len() > 0 && tv[0] != '#' {
            let t = string_from_chars(&tv);
            let mut m = String::new();
            m.append("cron (");
            m.append(source);
            m.append("): ");
            m.append(t.as_str());
            push_note(&mut out, info_note(m));
        }
        i += 1;
    }
    assert(all.take(ls@.len() as int) =~= all);
    out
}

/// What a process yields, for every pid, path and directory list: a
/// non-empty path containing `(deleted)` always gives the deleted-binary
/// finding, one under a suspicious directory always gives the location
/// finding, and no other finding is ever given.
pub proof fn lemma_process_findings(pid: Seq<char>, exe: Seq<char>, dirs: Seq<Seq<char>>)
    ensures
        exe.len() > 0 && has_substring(exe, "(deleted)"@) ==> process_findings_spec(pid, exe, dirs).contains(
            "PID "@ + pid + " is executing a deleted binary: "@ + exe + " \u{2014} common dropper/rootkit trick"@,
        ),
        exe.len() > 0 && (exists|i: int| 0 <= i < dirs.len() && path_starts_with(exe, #[trigger] dirs[i]))
            ==> process_findings_spec(pid, exe, dirs).contains(
            "PID "@ + pid + " running from suspicious location: "@ + exe,
        ),
        forall|k: int|
            0 <= k < process_findings_spec(pid, exe, dirs).len() ==> {
                let m = #[trigger] process_findings_spec(pid, exe, dirs)[k];
                ||| (exe.len() > 0 && has_substring(exe, "(deleted)"@) && m == "PID "@ + pid
                    + " is executing a deleted binary: "@ + exe + " \u{2014} common dropper/rootkit trick"@)
                ||| (exe.len() > 0 && (exists|i: int| 0 <= i < dirs.len() && path_starts_with(exe, #[trigger] dirs[i]))
                    && m == "PID "@ + pid + " running from suspicious location: "@ + exe)
            },
{
    let loc = "PID "@ + pid + " running from suspicious location: "@ + exe;
    let del = "PID "@ + pid + " is executing a deleted binary: "@ + exe + " \u{2014} common dropper/rootkit trick"@;
    let r = process_findings_spec(pid, exe, dirs);
    if exe.len() > 0 {
        let a: Seq<Seq<char>> = if under_any(exe, dirs) { seq![loc] } else { Seq::empty() };
        let b: Seq<Seq<char>> = if has_substring(exe, "(deleted)"@) { seq![del] } else { Seq::empty() };
        assert(r == a + b);
        if has_substring(exe, "(deleted)"@) {
            assert(r[a.len() as int] == del);
        }
        if under_any(exe, dirs) {
            assert(r[0] == loc);
        }
        assert forall|k: int| 0 <= k < r.len() implies {
            let m = #[trigger] r[k];
            ||| (exe.len() > 0 && has_substring(exe, "(deleted)"@) && m == del)
            ||| (exe.len() > 0 && (exists|i: int| 0 <= i < dirs.len() && path_starts_with(exe, #[trigger] dirs[i])) && m == loc)
        } by {
            if k < a.len() {
                assert(r[k] == a[k]);
            } else {
                assert(r[k] == b[k - a.len()]);
            }
        }
    }
}

/// A reverse shell: the lowercased content opens a `/dev/tcp/` connection.
pub open spec fn rc_reverse_shell(content: Seq<char>) -> bool {
    has_substring(lower_text(content), "/dev/tcp/"@)
}

/// A download piped into a shell (`curl` or `wget` with `| bash` or `| sh`),
/// or a base64 payload decoded (`base64 -d`), in the lowercased content.
pub open spec fn rc_download_exec(content: Seq<char>) -> bool {
    let l = lower_text(content);
    ((has_substring(l, "curl"@) || has_substring(l, "wget"@)) && (has_substring(l, "| bash"@)
        || has_substring(l, "| sh"@))) || has_substring(l, "base64 -d"@)
}

/// The finding for a shell start-up file at `path` holding `content`: a
/// critical reverse-shell finding, else a download-and-execute warning,
/// else none.
pub open spec fn rc_finding(content: Seq<char>, path: Seq<char>) -> Option<(Severity, Seq<char>)> {
    if rc_reverse_shell(content) {
        Some((Severity::Critical, "Reverse-shell pattern (/dev/tcp/) detected in "@ + path))
    } else if rc_download_exec(content) {
        Some((Severity::Warning, "Suspicious download-and-execute pattern in "@ + path))
    } else {
        None
    }
}

/// What a shell start-up file gives on Linux, for all content and paths,
/// over the lowercased content `l`: a `/dev/tcp/` in `l` gives the critical
/// reverse-shell finding; otherwise `curl` or `wget` together with `| bash`
/// or `| sh`, or a `base64 -d`, gives the download-and-execute warning; and
/// content with none of these gives nothing.
pub proof fn lemma_rc_finding(content: Seq<char>, path: Seq<char>)
    ensures
        has_substring(lower_text(content), "/dev/tcp/"@) ==> rc_finding(content, path) == Some(
            (Severity::Critical, "Reverse-shell pattern (/dev/tcp/) detected in "@ + path),
        ),
        !has_substring(lower_text(content), "/dev/tcp/"@) ==> (rc_finding(content, path) == if ((has_substring(
            lower_text(content),
            "curl"@,
        ) || has_substring(lower_text(content), "wget"@)) && (has_substring(lower_text(content), "| bash"@)
            || has_substring(lower_text(content), "| sh"@))) || has_substring(lower_text(content), "base64 -d"@) {
            Some((Severity::Warning, "Suspicious download-and-execute pattern in "@ + path))
        } else {
            None
        }),
{
}

/// The note to record for a shell start-up file, if any (see
/// [`rc_finding`]).
pub fn rc_note(content: &str, path: &str) -> (r: Option<Note>)
    ensures
        match r {
            Some(n) => rc_finding(content@, path@) == Some(n@),
            None => rc_finding(content@, path@) is None,
        },
{
    let lower = to_lowercase(content);
    let l = lower.as_str();
    if str_contains(l, "/dev/tcp/") {
        let mut m = String::new();
        m.append("Reverse-shell pattern (/dev/tcp/) detected in ");
        m.append(path);
        return Some(critical_note(m));
    }
    let dl_exec = (str_contains(l, "curl") || str_contains(l, "wget")) && (str_contains(l, "| bash")
        || str_contains(l, "| sh"));
    if dl_exec || str_contains(l, "base64 -d") {
        let mut m = String::new();
        m.append("Suspicious download-and-execute pattern in ");
        m.append(path);
        Some(warning_note(m))
    } else {
        None
    }
}

/// The Linux overrides of the user configuration, if any.
pub open spec fn linux_overrides(c: Option<&UserConfig>) -> Option<crate::config_loader::PlatformConfig> {
    match c {
        Some(u) => u.linux,
        None => None,
    }
}

/// The built-in shell start-up files (`SHELL_RC_FILES`).
pub open spec fn default_shell_rc_files() -> Seq<Seq<char>> {
    seq![".bashrc"@, ".profile"@]
}

/// The built-in persistence scan directories (`PERSISTENCE_SCAN_DIRS`).
pub open spec fn default_persistence_scan_dirs() -> Seq<Seq<char>> {
    seq!["/etc"@, "/usr/local/bin"@]
}

/// The shell start-up files to inspect: the configured list, else
/// `.bashrc` and `.profile`.
pub fn shell_rc_files(user_config: Option<&UserConfig>) -> (r: Vec<String>)
    ensures
        strings_view(r@) == match linux_overrides(user_config) {
            Some(p) => chosen_list(p.shell_rc_files, default_shell_rc_files()),
            None => default_shell_rc_files(),
        },
{
    let mut defaults: Vec<String> = Vec::new();
    defaults.push(SHELL_RC_FILES[0].to_owned());
    defaults.push(SHELL_RC_FILES[1].to_owned());
    assert(strings_view(defaults@) =~= default_shell_rc_files());
    match user_config {
        Some(c) => match &c.linux {
            Some(p) => choose_list(&p.shell_rc_files, defaults),
            None => defaults,
        },
        None => defaults,
    }
}

/// The directories to scan for recent modifications: the configured list,
/// else `/etc` and `/usr/local/bin`.
pub fn persistence_scan_dirs(user_config: Option<&UserConfig>) -> (r: Vec<String>)
    ensures
        strings_view(r@) == match linux_overrides(user_config) {
            Some(p) => chosen_list(p.persistence_scan_dirs, default_persistence_scan_dirs()),
            None => default_persistence_scan_dirs(),
        },
{
    let mut defaults: Vec<String> = Vec::new();
    defaults.push(PERSISTENCE_SCAN_DIRS[0].to_owned());
    defaults.push(PERSISTENCE_SCAN_DIRS[1].to_owned());
    assert(strings_view(defaults@) =~= default_persistence_scan_dirs());
    match user_config {
        Some(c) => match &c.linux {
            Some(p) => choose_list(&p.persistence_scan_dirs, defaults),
            None => defaults,
        },
        None => defaults,
    }
}

} // verus!
