//! The decisions of the macOS checks, on the output of the tools they run
//! and the files they read: which processes, launchd labels, crontab
//! entries and network extensions are flagged, and the lines recorded for
//! them. Running the tools and reading files happens in the program around
//! the library.
use vstd::prelude::*;
use crate::config::{
    strings, strs_view, under_any, path_is_suspicious, MACOS_SHELL_RC_FILES,
    SUSPICIOUS_CRON_PATTERNS, SUSPICIOUS_LAUNCHCTL_OUTPUT, SUSPICIOUS_PLIST_PATTERNS,
};
use crate::config_loader::{choose_list, chosen_list, PlatformConfig, UserConfig};
use crate::platform::linux::{cron_line_counts, rc_download_exec, rc_reverse_shell};
use crate::platform::patterns::{matches_any, matches_any_pattern};
use crate::report::{info_note, notes_view, push_note, strings_view, warning_note, Note, Severity};
use crate::text::{
    
    lemma_filter_map_empty, lemma_filter_map_step,
    chars_contain, chars_match_at, chars_of, find_char, has_substring, index_of, lines, lines_of, lower_text,
    str_contains, string_from_chars, string_from_range, sub_chars, to_lowercase, trim, trimmed_chars, words,
    words_of,
};

verus! {

/// The macOS overrides of the user configuration, if any.
pub open spec fn macos_overrides(c: Option<&UserConfig>) -> Option<PlatformConfig> {
    match c {
        Some(u) => u.macos,
        None => None,
    }
}

/// The pattern lists of the macOS checks.
pub struct MacosPatterns {
    pub plist: Vec<String>,
    pub cron: Vec<String>,
    pub launchctl: Vec<String>,
    pub shell_rc_files: Vec<String>,
}

impl MacosPatterns {
    /// Each list as configured, else the built-in one.
    pub fn from_config(user_config: Option<&UserConfig>) -> (r: MacosPatterns)
        ensures
            strings_view(r.plist@) == match macos_overrides(user_config) {
                Some(p) => chosen_list(p.suspicious_plist_patterns, strs_view(SUSPICIOUS_PLIST_PATTERNS@)),
                None => strs_view(SUSPICIOUS_PLIST_PATTERNS@),
            },
            strings_view(r.cron@) == match macos_overrides(user_config) {
                Some(p) => chosen_list(p.suspicious_cron_patterns, strs_view(SUSPICIOUS_CRON_PATTERNS@)),
                None => strs_view(SUSPICIOUS_CRON_PATTERNS@),
            },
            strings_view(r.launchctl@) == match macos_overrides(user_config) {
                Some(p) => chosen_list(p.suspicious_launchctl_output, strs_view(SUSPICIOUS_LAUNCHCTL_OUTPUT@)),
                None => strs_view(SUSPICIOUS_LAUNCHCTL_OUTPUT@),
            },
            strings_view(r.shell_rc_files@) == match macos_overrides(user_config) {
                Some(p) => chosen_list(p.shell_rc_files, strs_view(MACOS_SHELL_RC_FILES@)),
                None => strs_view(MACOS_SHELL_RC_FILES@),
            },
    {
        let plist = strings(&SUSPICIOUS_PLIST_PATTERNS);
        let cron = strings(&SUSPICIOUS_CRON_PATTERNS);
        let launchctl = strings(&SUSPICIOUS_LAUNCHCTL_OUTPUT);
        let shell_rc_files = strings(&MACOS_SHELL_RC_FILES);
        match user_config {
            Some(c) => match &c.macos {
                Some(p) => MacosPatterns {
                    plist: choose_list(&p.suspicious_plist_patterns, plist),
                    cron: choose_list(&p.suspicious_cron_patterns, cron),
                    launchctl: choose_list(&p.suspicious_launchctl_output, launchctl),
                    shell_rc_files: choose_list(&p.shell_rc_files, shell_rc_files),
                },
                None => MacosPatterns { plist, cron, launchctl, shell_rc_files },
            },
            None => MacosPatterns { plist, cron, launchctl, shell_rc_files },
        }
    }
}

/// The lines after the first (a tool's column titles).
pub open spec fn after_header(ls: Seq<Seq<char>>) -> Seq<Seq<char>> {
    if ls.len() > 0 { ls.drop_first() } else { ls }
}

// ---------------------------------------------------------------------------
// Processes (`ps -axo pid,args`)
// ---------------------------------------------------------------------------

/// The executable of a `ps` argument list: its first word, or the whole
/// list when it has none.
pub open spec fn first_word_or_all(args: Seq<char>) -> Seq<char> {
    if words(args).len() > 0 { words(args)[0] } else { args }
}

/// The warnings for `ps` lines: each trimmed line splits at its first space
/// into process id and arguments; the executable is flagged when it lies
/// under a suspicious directory.
pub open spec fn ps_scan(ls: Seq<Seq<char>>, dirs: Seq<Seq<char>>) -> Seq<(Severity, Seq<char>)>
    decreases ls.len(),
{
    if ls.len() == 0 {
        Seq::empty()
    } else {
        let rest = ps_scan(ls.drop_last(), dirs);
        let l = trim(ls.last());
        match index_of(l, ' ') {
            Some(k) => {
                let pid = l.take(k);
                let exe = first_word_or_all(trim(l.skip(k + 1)));
                if under_any(exe, dirs) {
                    rest.push((Severity::Warning, "PID "@ + pid + " running from suspicious location: "@ + exe))
                } else {
                    rest
                }
            },
            None => rest,
        }
    }
}

/// The `ps` notes, for all lines and directories: one warning per line
/// (trimmed) that splits at its first space into a pid and arguments whose
/// first word (or the whole, if none) lies under a suspicious directory, in
/// order, naming the pid and that executable.
pub proof fn lemma_ps_scan(ls: Seq<Seq<char>>, dirs: Seq<Seq<char>>)
    ensures
        ps_scan(ls, dirs) == ls.filter(|x: Seq<char>| index_of(trim(x), ' ') is Some && under_any((if words(trim(trim(x).skip(index_of(trim(x), ' ')->0 + 1))).len() > 0 { words(trim(trim(x).skip(index_of(trim(x), ' ')->0 + 1)))[0] } else { trim(trim(x).skip(index_of(trim(x), ' ')->0 + 1)) }), dirs)).map_values(
            |x: Seq<char>| (Severity::Warning, "PID "@ + trim(x).take(index_of(trim(x), ' ')->0) + " running from suspicious location: "@ + (if words(trim(trim(x).skip(index_of(trim(x), ' ')->0 + 1))).len() > 0 { words(trim(trim(x).skip(index_of(trim(x), ' ')->0 + 1)))[0] } else { trim(trim(x).skip(index_of(trim(x), ' ')->0 + 1)) })),
        ),
    decreases ls.len(),
{
    let p = |x: Seq<char>| index_of(trim(x), ' ') is Some && under_any((if words(trim(trim(x).skip(index_of(trim(x), ' ')->0 + 1))).len() > 0 { words(trim(trim(x).skip(index_of(trim(x), ' ')->0 + 1)))[0] } else { trim(trim(x).skip(index_of(trim(x), ' ')->0 + 1)) }), dirs);
    let f = |x: Seq<char>| (Severity::Warning, "PID "@ + trim(x).take(index_of(trim(x), ' ')->0) + " running from suspicious location: "@ + (if words(trim(trim(x).skip(index_of(trim(x), ' ')->0 + 1))).len() > 0 { words(trim(trim(x).skip(index_of(trim(x), ' ')->0 + 1)))[0] } else { trim(trim(x).skip(index_of(trim(x), ' ')->0 + 1)) }));
    if ls.len() == 0 {
        lemma_filter_map_empty(ls, p, f);
    } else {
        lemma_ps_scan(ls.drop_last(), dirs);
        lemma_filter_map_step(ls, p, f);
    }
}

/// The notes to record for `ps -axo pid,args` output (its first line holds
/// column titles).
pub fn ps_notes(text: &str, sus_dirs: &[String]) -> (r: Vec<Note>)
    ensures
        notes_view(r@) == ps_scan(after_header(lines(text@)), strings_view(sus_dirs@)),
{
    let ls = lines_of(text);
    let ghost all = after_header(lines(text@));
    let ghost ds = strings_view(sus_dirs@);
    let start: usize = if ls.len() > 0 { 1 } else { 0 };
    let mut out: Vec<Note> = Vec::new();
    let mut i: usize = start;
    while i < ls.len()
        invariant
            all == after_header(lines(text@)),
            ds == strings_view(sus_dirs@),
            ls@.len() == lines(text@).len(),
            forall|k: int| 0 <= k < ls@.len() ==> #[trigger] ls@[k]@ == lines(text@)[k],
            start <= i <= ls@.len(),
            start == (if ls@.len() > 0 { 1int } else { 0int }),
            all.len() == ls@.len() - start,
            forall|k: int| 0 <= k < all.len() ==> #[trigger] all[k] == lines(text@)[k + start],
            notes_view(out@) == ps_scan(all.take(i - start), ds),
        decreases ls@.len() - i,
    {
        let j: usize = i - start;
        assert(all.take(j + 1).drop_last() =~= all.take(j as int));
        assert(all.take(j + 1).last() == all[j as int]);
        let raw = chars_of(ls[i].as_str());
        let l = trimmed_chars(&raw);
        let llen = l.len();
        match find_char(&l, ' ') {
            Some(k) => {
                let rest = sub_chars(&l, k + 1, llen);
                let args = trimmed_chars(&rest);
                let ws = words_of(&args);
                let exe = if ws.len() > 0 { string_from_chars(&ws[0]) } else { string_from_chars(&args) };
                assert(exe@ == first_word_or_all(args@));
                if path_is_suspicious(exe.as_str(), sus_dirs) {
                    let pid = string_from_range(&l, 0, k);
                    assert(pid@ =~= l@.take(k as int));
                    assert(rest@ =~= l@.skip(k + 1));
                    let mut m = String::new();
                    m.append("PID ");
                    m.append(pid.as_str());
                    m.append(" running from suspicious location: ");
                    m.append(exe.as_str());
                    push_note(&mut out, warning_note(m));
                } else {
                    assert(rest@ =~= l@.skip(k + 1));
                }
            },
            None => {},
        }
        i += 1;
    }
    assert(all.take(ls@.len() - start) =~= all);
    out
}

// ---------------------------------------------------------------------------
// launchd (`launchctl list`)
// ---------------------------------------------------------------------------

/// The warnings for `launchctl list` lines: a trimmed line of at least three
/// words is `PID Status Label`; the label is flagged when it matches.
pub open spec fn launchctl_scan(ls: Seq<Seq<char>>, patterns: Seq<Seq<char>>) -> Seq<(Severity, Seq<char>)>
    decreases ls.len(),
{
    if ls.len() == 0 {
        Seq::empty()
    } else {
        let rest = launchctl_scan(ls.drop_last(), patterns);
        let parts = words(trim(ls.last()));
        if parts.len() >= 3 && matches_any(parts[2], patterns) {
            rest.push((Severity::Warning, "Suspicious launchctl label: "@ + parts[2] + " (PID: "@ + parts[0] + ")"@))
        } else {
            rest
        }
    }
}

/// The `launchctl list` notes, for all lines and patterns: one warning per
/// line with at least three words whose third word (the label) holds a
/// pattern, ignoring case, in order, naming the label and the pid.
pub proof fn lemma_launchctl_scan(ls: Seq<Seq<char>>, patterns: Seq<Seq<char>>)
    ensures
        launchctl_scan(ls, patterns) == ls.filter(|x: Seq<char>| words(trim(x)).len() >= 3 && (exists|i: int| 0 <= i < patterns.len() && has_substring(lower_text(words(trim(x))[2]), lower_text(#[trigger] patterns[i])))).map_values(
            |x: Seq<char>| (Severity::Warning, "Suspicious launchctl label: "@ + words(trim(x))[2] + " (PID: "@ + words(trim(x))[0] + ")"@),
        ),
    decreases ls.len(),
{
    let p = |x: Seq<char>| words(trim(x)).len() >= 3 && (exists|i: int| 0 <= i < patterns.len() && has_substring(lower_text(words(trim(x))[2]), lower_text(#[trigger] patterns[i])));
    let f = |x: Seq<char>| (Severity::Warning, "Suspicious launchctl label: "@ + words(trim(x))[2] + " (PID: "@ + words(trim(x))[0] + ")"@);
    if ls.len() == 0 {
        lemma_filter_map_empty(ls, p, f);
    } else {
        lemma_launchctl_scan(ls.drop_last(), patterns);
        lemma_filter_map_step(ls, p, f);
    }
}

/// The notes to record for `launchctl list` output (its first line holds
/// column titles).
pub fn launchctl_notes(text: &str, patterns: &[String]) -> (r: Vec<Note>)
    ensures
        notes_view(r@) == launchctl_scan(after_header(lines(text@)), strings_view(patterns@)),
{
    let ls = lines_of(text);
    let ghost all = after_header(lines(text@));
    let ghost ps = strings_view(patterns@);
    let start: usize = if ls.len() > 0 { 1 } else { 0 };
    let mut out: Vec<Note> = Vec::new();
    let mut i: usize = start;
    while i < ls.len()
        invariant
            all == after_header(lines(text@)),
            ps == strings_view(patterns@),
            ls@.len() == lines(text@).len(),
            forall|k: int| 0 <= k < ls@.len() ==> #[trigger] ls@[k]@ == lines(text@)[k],
            start <= i <= ls@.len(),
            start == (if ls@.len() > 0 { 1int } else { 0int }),
            all.len() == ls@.len() - start,
            forall|k: int| 0 <= k < all.len() ==> #[trigger] all[k] == lines(text@)[k + start],
            notes_view(out@) == launchctl_scan(all.take(i - start), ps),
        decreases ls@.len() - i,
    {
        let j: usize = i - start;
        assert(all.take(j + 1).drop_last() =~= all.take(j as int));
        assert(all.take(j + 1).last() == all[j as int]);
        let raw = chars_of(ls[i].as_str());
        let l = trimmed_chars(&raw);
        let parts = words_of(&l);
        if parts.len() >= 3 {
            let label = string_from_chars(&parts[2]);
            if matches_any_pattern(label.as_str(), patterns) {
                let pid = string_from_chars(&parts[0]);
                let mut m = String::new();
                m.append("Suspicious launchctl label: ");
                m.append(label.as_str());
                m.append(" (PID: ");
                m.append(pid.as_str());
                m.append(")");
                push_note(&mut out, warning_note(m));
            }
        }
        i += 1;
    }
    assert(all.take(ls@.len() - start) =~= all);
    out
}

// ---------------------------------------------------------------------------
// Cron
// ---------------------------------------------------------------------------

/// The notes for the entries of the user's crontab: each counted line is
/// listed, and flagged too when it matches.
pub open spec fn crontab_scan(ls: Seq<Seq<char>>, home: Seq<char>, patterns: Seq<Seq<char>>) -> Seq<(Severity, Seq<char>)>
    decreases ls.len(),
{
    if ls.len() == 0 {
        Seq::empty()
    } else {
        let rest = crontab_scan(ls.drop_last(), home, patterns);
        let t = trim(ls.last());
        if !cron_line_counts(t) {
            rest
        } else {
            let listed = rest.push((Severity::Info, "crontab ("@ + home + "): "@ + t));
            if matches_any(t, patterns) {
                listed.push((Severity::Warning, "Suspicious crontab entry: "@ + t))
            } else {
                listed
            }
        }
    }
}

/// The crontab notes, for all lines, home directories and patterns: for
/// each line whose trimmed text is non-empty and does not start with `#`, in
/// order, an info note `crontab (<home>): <line>`, followed by a warning
/// `Suspicious crontab entry: <line>` when the line holds a pattern
/// (ignoring case).
pub proof fn lemma_crontab_scan(ls: Seq<Seq<char>>, home: Seq<char>, patterns: Seq<Seq<char>>)
    ensures
        crontab_scan(ls, home, patterns) == ls.filter(|x: Seq<char>| trim(x).len() > 0 && trim(x)[0] != '#').map_values(
            |x: Seq<char>|
                seq![(Severity::Info, "crontab ("@ + home + "): "@ + trim(x))] + if (exists|i: int|
                    0 <= i < patterns.len() && has_substring(lower_text(trim(x)), lower_text(#[trigger] patterns[i]))) {
                    seq![(Severity::Warning, "Suspicious crontab entry: "@ + trim(x))]
                } else {
                    Seq::<(Severity, Seq<char>)>::empty()
                },
        ).flatten(),
    decreases ls.len(),
{
    let p = |x: Seq<char>| trim(x).len() > 0 && trim(x)[0] != '#';
    let g = |x: Seq<char>|
        seq![(Severity::Info, "crontab ("@ + home + "): "@ + trim(x))] + if (exists|i: int|
            0 <= i < patterns.len() && has_substring(lower_text(trim(x)), lower_text(#[trigger] patterns[i]))) {
            seq![(Severity::Warning, "Suspicious crontab entry: "@ + trim(x))]
        } else {
            Seq::<(Severity, Seq<char>)>::empty()
        };
    if ls.len() == 0 {
        lemma_filter_map_empty(ls, p, g);
        assert(Seq::<Seq<(Severity, Seq<char>)>>::empty().flatten() =~= Seq::empty());
    } else {
        lemma_crontab_scan(ls.drop_last(), home, patterns);
        lemma_filter_map_step(ls, p, g);
        let prev = ls.drop_last().filter(p).map_values(g);
        if p(ls.last()) {
            prev.lemma_flatten_push(g(ls.last()));
            let t = trim(ls.last());
            let rest = crontab_scan(ls.drop_last(), home, patterns);
            let listed = rest.push((Severity::Info, "crontab ("@ + home + "): "@ + t));
            if matches_any(t, patterns) {
                assert(listed.push((Severity::Warning, "Suspicious crontab entry: "@ + t)) =~= rest + g(ls.last()));
            } else {
                assert(listed =~= rest + g(ls.last()));
            }
        }
    }
}

/// The notes to record for `crontab -l` output.
pub fn crontab_notes(text: &str, home: &str, patterns: &[String]) -> (r: Vec<Note>)
    ensures
        notes_view(r@) == crontab_scan(lines(text@), home@, strings_view(patterns@)),
{
    let ls = lines_of(text);
    let ghost all = lines(text@);
    let ghost ps = strings_view(patterns@);
    let mut out: Vec<Note> = Vec::new();
    let mut i: usize = 0;
    while i < ls.len()
        invariant
            all == lines(text@),
            ps == strings_view(patterns@),
            ls@.len() == all.len(),
            forall|k: int| 0 <= k < ls@.len() ==> #[trigger] ls@[k]@ == all[k],
            i <= ls@.len(),
            notes_view(out@) == crontab_scan(all.take(i as int), home@, ps),
        decreases ls@.len() - i,
    {
        assert(all.take(i + 1).drop_last() =~= all.take(i as int));
        assert(all.take(i + 1).last() == all[i as int]);
        let raw = chars_of(ls[i].as_str());
        let tv = trimmed_chars(&raw);
        if tv.len() > 0 && tv[0] != '#' {
            let t = string_from_chars(&tv);
            let mut m = String::new();
            m.append("crontab (");
            m.append(home);
            m.append("): ");
            m.append(t.as_str());
            push_note(&mut out, info_note(m));
            if matches_any_pattern(t.as_str(), patterns) {
                let mut f = String::new();
                f.append("Suspicious crontab entry: ");
                f.append(t.as_str());
                push_note(&mut out, warning_note(f));
            }
        }
        i += 1;
    }
    assert(all.take(ls@.len() as int) =~= all);
    out
}

// ---------------------------------------------------------------------------
// Shell start-up files
// ---------------------------------------------------------------------------

/// The finding for a shell start-up file at `path` on macOS: one warning
/// for either a reverse shell or a download-and-execute pattern.
pub open spec fn rc_finding(content: Seq<char>, path: Seq<char>) -> Option<(Severity, Seq<char>)> {
    if rc_reverse_shell(content) || rc_download_exec(content) {
        Some((Severity::Warning, "Suspicious download-and-execute / reverse-shell pattern in "@ + path))
    } else {
        None
    }
}

/// What a shell start-up file gives on macOS, for all content and paths,
/// over the lowercased content `l`: one warning when `l` holds `/dev/tcp/`,
/// `base64 -d`, or `curl` or `wget` together with `| bash` or `| sh`;
/// nothing otherwise.
pub proof fn lemma_macos_rc_finding(content: Seq<char>, path: Seq<char>)
    ensures
        rc_finding(content, path) == if has_substring(lower_text(content), "/dev/tcp/"@) || ((has_substring(
            lower_text(content),
            "curl"@,
        ) || has_substring(lower_text(content), "wget"@)) && (has_substring(lower_text(content), "| bash"@)
            || has_substring(lower_text(content), "| sh"@))) || has_substring(lower_text(content), "base64 -d"@) {
            Some((Severity::Warning, "Suspicious download-and-execute / reverse-shell pattern in "@ + path))
        } else {
            None
        },
{
}

/// The note to record for a shell start-up file on macOS, if any (see
/// [`rc_finding`]).
pub fn rc_note(content: &str, path: &str) -> (r: Option<Note>)
    ensures
        match r {
            Some(n) => rc_finding(content@, path@) == Some(n@),
            None => rc_finding(content@, path@) is None,
        },
{
    let lower = to_lowercase(content);
    let l = lower.as_str();
    let dl_exec = (str_contains(l, "curl") || str_contains(l, "wget")) && (str_contains(l, "| bash")
        || str_contains(l, "| sh"));
    if dl_exec || str_contains(l, "base64 -d") || str_contains(l, "/dev/tcp/") {
        let mut m = String::new();
        m.append("Suspicious download-and-execute / reverse-shell pattern in ");
        m.append(path);
        Some(warning_note(m))
    } else {
        None
    }
}

// ---------------------------------------------------------------------------
// Launch agents and daemons
// ---------------------------------------------------------------------------

/// The notes for one launch agent or daemon file: it is always listed, and
/// flagged when its content matches a plist pattern.
pub open spec fn plist_notes_spec(path: Seq<char>, content: Seq<char>, patterns: Seq<Seq<char>>) -> Seq<(Severity, Seq<char>)> {
    seq![(Severity::Info, "LaunchAgent/Daemon: "@ + path)] + (if matches_any(content, patterns) {
        seq![(Severity::Warning, "Suspicious plist (download/exec pattern): "@ + path)]
    } else {
        Seq::<(Severity, Seq<char>)>::empty()
    })
}

/// The notes to record for a launch agent or daemon file.
pub fn plist_notes(path: &str, content: &str, patterns: &[String]) -> (r: Vec<Note>)
    ensures
        notes_view(r@) == plist_notes_spec(path@, content@, strings_view(patterns@)),
{
    let mut out: Vec<Note> = Vec::new();
    let mut m = String::new();
    m.append("LaunchAgent/Daemon: ");
    m.append(path);
    push_note(&mut out, info_note(m));
    if matches_any_pattern(content, patterns) {
        let mut f = String::new();
        f.append("Suspicious plist (download/exec pattern): ");
        f.append(path);
        push_note(&mut out, warning_note(f));
    }
    assert(notes_view(out@) =~= plist_notes_spec(path@, content@, strings_view(patterns@)));
    out
}

// ---------------------------------------------------------------------------
// Network extensions
// ---------------------------------------------------------------------------

/// Name fragments of network and system extensions that intercept traffic.
pub open spec fn network_extension_fragments() -> Seq<Seq<char>> {
    seq!["com."@, "filter"@, "proxy"@, "dns"@, "vpn"@, "firewall"@, "monitor"@, "capture"@]
}

/// The extension's lowercased name holds one of the fragments.
pub open spec fn network_extension_flagged(name: Seq<char>) -> bool {
    exists|i: int| 0 <= i < network_extension_fragments().len() && has_substring(
        lower_text(name),
        #[trigger] network_extension_fragments()[i],
    )
}

/// Whether a network extension's name is suspicious.
pub fn network_extension_is_suspicious(name: &str) -> (r: bool)
    ensures
        r == network_extension_flagged(name@),
{
    let lower = to_lowercase(name);
    let lv = chars_of(lower.as_str());
    let frags: [&str; 8] = ["com.", "filter", "proxy", "dns", "vpn", "firewall", "monitor", "capture"];
    let ghost fs = network_extension_fragments();
    assert(fs.len() == 8);
    let mut i: usize = 0;
    while i < 8
        invariant
            fs == network_extension_fragments(),
            frags@ == seq!["com.", "filter", "proxy", "dns", "vpn", "firewall", "monitor", "capture"],
            lv@ == lower_text(name@),
            i <= 8,
            forall|k: int| 0 <= k < i ==> !has_substring(lower_text(name@), #[trigger] fs[k]),
        decreases 8 - i,
    {
        let pv = chars_of(frags[i]);
        assert(frags@[i as int]@ == fs[i as int]);
        if chars_contain(&lv, &pv) {
            return true;
        }
        i += 1;
    }
    false
}

/// The note for an entry of a network extension directory: flagged when its
/// name is suspicious, else listed; `shown` is how its path is displayed.
pub open spec fn network_extension_note_spec(name: Seq<char>, shown: Seq<char>) -> (Severity, Seq<char>) {
    if network_extension_flagged(name) {
        (Severity::Warning, "Suspicious network extension: "@ + name + " ("@ + shown + ")"@)
    } else {
        (Severity::Info, "Network extension: "@ + shown)
    }
}

/// The note to record for an entry of a network extension directory.
pub fn network_extension_note(name: &str, shown: &str) -> (r: Note)
    ensures
        r@ == network_extension_note_spec(name@, shown@),
{
    let mut m = String::new();
    if network_extension_is_suspicious(name) {
        m.append("Suspicious network extension: ");
        m.append(name);
        m.append(" (");
        m.append(shown);
        m.append(")");
        warning_note(m)
    } else {
        m.append("Network extension: ");
        m.append(shown);
        info_note(m)
    }
}

/// `s` ends with `suffix`.
pub open spec fn ends_with(s: Seq<char>, suffix: Seq<char>) -> bool {
    suffix.len() <= s.len() && s.skip(s.len() - suffix.len()) == suffix
}

/// Whether a directory name is that of a system extension bundle
/// (`.systemextension`).
pub fn is_system_extension(name: &str) -> (r: bool)
    ensures
        r == ends_with(name@, ".systemextension"@),
{
    let v = chars_of(name);
    let suffix = chars_of(".systemextension");
    if suffix.len() > v.len() {
        return false;
    }
    let at = v.len() - suffix.len();
    let r = chars_match_at(&v, &suffix, at);
    proof {
        assert(v@.subrange(at as int, at + suffix@.len()) =~= v@.skip(at as int));
    }
    r
}

/// The finding for a system extension bundle inside a network extension
/// directory.
pub open spec fn system_extension_finding(shown: Seq<char>) -> Seq<char> {
    "System extension (possible network interception): "@ + shown
}

/// The message for a system extension bundle, given how its path is shown.
pub fn system_extension_message(shown: &str) -> (r: String)
    ensures
        r@ == system_extension_finding(shown@),
{
    let mut m = String::new();
    m.append("System extension (possible network interception): ");
    m.append(shown);
    m
}

} // verus!
