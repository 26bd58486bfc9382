//! The decisions of the Windows checks, on the decoded output of the tools
//! they run: which scheduled tasks, WMI consumers, services, script blocks
//! and processes are flagged, and the lines recorded for them. Running the
//! tools and reading the registry happens in the program around the library.
use vstd::prelude::*;
use crate::config::{
    strings, strs_view, SUSPICIOUS_AUTORUN_PATTERNS, SUSPICIOUS_POWERSHELL_PATTERNS,
    SUSPICIOUS_SERVICE_PATTERNS, SUSPICIOUS_TASK_ACTIONS, WMI_EVENT_CONSUMER_PATTERNS,
};
use crate::config_loader::{choose_list, chosen_list, PlatformConfig, UserConfig};
use crate::platform::patterns::{matches_any, matches_any_pattern};
use crate::platform::win_helpers::{cell, csv_fields, csv_table, parse_csv_line, CsvTable};
use crate::report::{
    info_note, notes_view, push_note, strings_view, warning_note, Note, Severity,
};
use crate::text::{
    
    
    
    lemma_filter_map_empty, lemma_filter_map_step,
    chars_contain, chars_of, chars_start_with, decimal, find_char, has_substring, index_of, lines, lines_of,
    lower_text, push_decimal, starts_with, str_contains, string_from_chars, string_from_range,
    sub_chars, to_lowercase, trim, trimmed_chars,
};

verus! {

// ---------------------------------------------------------------------------
// Scheduled tasks
// ---------------------------------------------------------------------------

/// A scheduled task and the command it runs.
#[derive(Debug)]
pub struct TaskAction {
    pub task: String,
    pub action: String,
}

impl View for TaskAction {
    type V = (Seq<char>, Seq<char>);

    open spec fn view(&self) -> (Seq<char>, Seq<char>) {
        (self.task@, self.action@)
    }
}

/// The values of a list of task actions.
pub open spec fn actions_view(v: Seq<TaskAction>) -> Seq<(Seq<char>, Seq<char>)> {
    v.map_values(|a: TaskAction| a@)
}

/// Reading `schtasks /query /fo list /v` line by line: a `TaskName:` line
/// names the current task, a `Task To Run:` line gives its action. Returns
/// the actions found and the current task name.
pub open spec fn schtasks_scan(ls: Seq<Seq<char>>) -> (Seq<(Seq<char>, Seq<char>)>, Seq<char>)
    decreases ls.len(),
{
    if ls.len() == 0 {
        (Seq::empty(), Seq::empty())
    } else {
        let (acts, cur) = schtasks_scan(ls.drop_last());
        let l = trim(ls.last());
        let cur2 = if starts_with(l, "TaskName:"@) { trim(l.skip("TaskName:"@.len() as int)) } else { cur };
        let acts2 = if starts_with(l, "Task To Run:"@) {
            acts.push((cur2, trim(l.skip("Task To Run:"@.len() as int))))
        } else {
            acts
        };
        (acts2, cur2)
    }
}

/// The task actions listed in `schtasks` output.
pub fn schtasks_actions(text: &str) -> (r: Vec<TaskAction>)
    ensures
        actions_view(r@) == schtasks_scan(lines(text@)).0,
{
    let ls = lines_of(text);
    let ghost all = lines(text@);
    let name_p = chars_of("TaskName:");
    let run_p = chars_of("Task To Run:");
    let mut current: Vec<char> = Vec::new();
    let mut out: Vec<TaskAction> = Vec::new();
    let mut i: usize = 0;
    while i < ls.len()
        invariant
            all == lines(text@),
            ls@.len() == all.len(),
            forall|k: int| 0 <= k < ls@.len() ==> #[trigger] ls@[k]@ == all[k],
            name_p@ == "TaskName:"@,
            run_p@ == "Task To Run:"@,
            i <= ls@.len(),
            actions_view(out@) == schtasks_scan(all.take(i as int)).0,
            current@ == schtasks_scan(all.take(i as int)).1,
        decreases ls@.len() - i,
    {
        assert(all.take(i + 1).drop_last() =~= all.take(i as int));
        assert(all.take(i + 1).last() == all[i as int]);
        let raw = chars_of(ls[i].as_str());
        let l = trimmed_chars(&raw);
        if chars_start_with(&l, &name_p) {
            let rest = sub_chars(&l, name_p.len(), l.len());
            current = trimmed_chars(&rest);
        }
        if chars_start_with(&l, &run_p) {
            let rest = sub_chars(&l, run_p.len(), l.len());
            let a = trimmed_chars(&rest);
            let ghost before = out@;
            out.push(TaskAction { task: string_from_chars(&current), action: string_from_chars(&a) });
            assert(actions_view(out@) =~= actions_view(before).push((current@, a@)));
        }
        i += 1;
    }
    assert(all.take(ls@.len() as int) =~= all);
    out
}

/// The task actions in the `<task>|<action>` lines of the PowerShell
/// fallback: trimmed lines split at their first `|`; blank lines and lines
/// without `|` are skipped.
pub open spec fn ps_task_actions_spec(ls: Seq<Seq<char>>) -> Seq<(Seq<char>, Seq<char>)>
    decreases ls.len(),
{
    if ls.len() == 0 {
        Seq::empty()
    } else {
        let rest = ps_task_actions_spec(ls.drop_last());
        let l = trim(ls.last());
        match index_of(l, '|') {
            Some(k) => if l.len() > 0 { rest.push((l.take(k), l.skip(k + 1))) } else { rest },
            None => rest,
        }
    }
}

/// The PowerShell task lines, for all lines: one action per trimmed
/// non-blank line holding a `|`, in order, split at its first `|` into
/// task and action.
pub proof fn lemma_ps_task_actions(ls: Seq<Seq<char>>)
    ensures
        ps_task_actions_spec(ls) == ls.filter(|x: Seq<char>| trim(x).len() > 0 && index_of(trim(x), '|') is Some).map_values(
            |x: Seq<char>| (trim(x).take(index_of(trim(x), '|')->0), trim(x).skip(index_of(trim(x), '|')->0 + 1)),
        ),
    decreases ls.len(),
{
    let p = |x: Seq<char>| trim(x).len() > 0 && index_of(trim(x), '|') is Some;
    let f = |x: Seq<char>| (trim(x).take(index_of(trim(x), '|')->0), trim(x).skip(index_of(trim(x), '|')->0 + 1));
    if ls.len() == 0 {
        lemma_filter_map_empty(ls, p, f);
    } else {
        lemma_ps_task_actions(ls.drop_last());
        lemma_filter_map_step(ls, p, f);
    }
}

/// The task actions listed by the PowerShell fallback.
#[verifier::rlimit(40)]
pub fn ps_task_actions(text: &str) -> (r: Vec<TaskAction>)
    ensures
        actions_view(r@) == ps_task_actions_spec(lines(text@)),
{
    let ls = lines_of(text);
    let ghost all = lines(text@);
    let mut out: Vec<TaskAction> = Vec::new();
    let mut i: usize = 0;
    while i < ls.len()
        invariant
            all == lines(text@),
            ls@.len() == all.len(),
            forall|k: int| 0 <= k < ls@.len() ==> #[trigger] ls@[k]@ == all[k],
            i <= ls@.len(),
            actions_view(out@) == ps_task_actions_spec(all.take(i as int)),
        decreases ls@.len() - i,
    {
        assert(all.take(i + 1).drop_last() =~= all.take(i as int));
        assert(all.take(i + 1).last() == all[i as int]);
        let raw = chars_of(ls[i].as_str());
        let l = trimmed_chars(&raw);
        if l.len() > 0 {
            match find_char(&l, '|') {
                Some(k) => {
                    let t = string_from_range(&l, 0, k);
                    let a = string_from_range(&l, k + 1, l.len());
                    let ghost before = out@;
                    out.push(TaskAction { task: t, action: a });
                    assert(l@.take(k as int) =~= l@.subrange(0, k as int));
                    assert(actions_view(out@) =~= actions_view(before).push((l@.take(k as int), l@.skip(k + 1))));
                },
                None => {},
            }
        }
        i += 1;
    }
    assert(all.take(ls@.len() as int) =~= all);
    out
}

/// The note for one scheduled task action: a warning when the action
/// matches a pattern, else an info line.
pub open spec fn task_note(task: Seq<char>, action: Seq<char>, patterns: Seq<Seq<char>>) -> (Severity, Seq<char>) {
    if matches_any(action, patterns) {
        (Severity::Warning, "Suspicious scheduled task action: "@ + task + " -> "@ + action)
    } else {
        (Severity::Info, "Scheduled task: "@ + task + " -> "@ + action)
    }
}

/// The notes for a list of scheduled task actions.
pub open spec fn task_notes_spec(acts: Seq<(Seq<char>, Seq<char>)>, patterns: Seq<Seq<char>>) -> Seq<(Severity, Seq<char>)> {
    acts.map_values(|a: (Seq<char>, Seq<char>)| task_note(a.0, a.1, patterns))
}

/// The notes to record for scheduled task actions.
pub fn task_notes(actions: &Vec<TaskAction>, patterns: &[String]) -> (r: Vec<Note>)
    ensures
        notes_view(r@) == task_notes_spec(actions_view(actions@), strings_view(patterns@)),
{
    let ghost acts = actions_view(actions@);
    let mut out: Vec<Note> = Vec::new();
    let mut i: usize = 0;
    while i < actions.len()
        invariant
            acts == actions_view(actions@),
            i <= actions@.len(),
            notes_view(out@) == task_notes_spec(acts.take(i as int), strings_view(patterns@)),
        decreases actions@.len() - i,
    {
        let a = &actions[i];
        let mut m = String::new();
        let n = if matches_any_pattern(a.action.as_str(), patterns) {
            m.append("Suspicious scheduled task action: ");
            m.append(a.task.as_str());
            m.append(" -> ");
            m.append(a.action.as_str());
            warning_note(m)
        } else {
            m.append("Scheduled task: ");
            m.append(a.task.as_str());
            m.append(" -> ");
            m.append(a.action.as_str());
            info_note(m)
        };
        assert(acts[i as int] == a@);
        push_note(&mut out, n);
        assert(task_notes_spec(acts.take(i + 1), strings_view(patterns@)) =~= task_notes_spec(
            acts.take(i as int),
            strings_view(patterns@),
        ).push(task_note(a.task@, a.action@, strings_view(patterns@))));
        i += 1;
    }
    assert(acts.take(actions@.len() as int) =~= acts);
    out
}


// ---------------------------------------------------------------------------
// Pattern lists
// ---------------------------------------------------------------------------

/// The Windows overrides of the user configuration, if any.
pub open spec fn windows_overrides(c: Option<&UserConfig>) -> Option<PlatformConfig> {
    match c {
        Some(u) => u.windows,
        None => None,
    }
}

/// The pattern lists of the Windows checks.
pub struct WindowsPatterns {
    pub autorun: Vec<String>,
    pub task: Vec<String>,
    pub powershell: Vec<String>,
    pub service: Vec<String>,
    pub wmi: Vec<String>,
}

impl WindowsPatterns {
    /// Each list as configured, else the built-in one.
    pub fn from_config(user_config: Option<&UserConfig>) -> (r: WindowsPatterns)
        ensures
            strings_view(r.autorun@) == match windows_overrides(user_config) {
                Some(p) => chosen_list(p.suspicious_autorun_patterns, strs_view(SUSPICIOUS_AUTORUN_PATTERNS@)),
                None => strs_view(SUSPICIOUS_AUTORUN_PATTERNS@),
            },
            strings_view(r.task@) == match windows_overrides(user_config) {
                Some(p) => chosen_list(p.suspicious_task_actions, strs_view(SUSPICIOUS_TASK_ACTIONS@)),
                None => strs_view(SUSPICIOUS_TASK_ACTIONS@),
            },
            strings_view(r.powershell@) == match windows_overrides(user_config) {
                Some(p) => chosen_list(p.suspicious_powershell_patterns, strs_view(SUSPICIOUS_POWERSHELL_PATTERNS@)),
                None => strs_view(SUSPICIOUS_POWERSHELL_PATTERNS@),
            },
            strings_view(r.service@) == match windows_overrides(user_config) {
                Some(p) => chosen_list(p.suspicious_service_patterns, strs_view(SUSPICIOUS_SERVICE_PATTERNS@)),
                None => strs_view(SUSPICIOUS_SERVICE_PATTERNS@),
            },
            strings_view(r.wmi@) == match windows_overrides(user_config) {
                Some(p) => chosen_list(p.wmi_event_consumer_patterns, strs_view(WMI_EVENT_CONSUMER_PATTERNS@)),
                None => strs_view(WMI_EVENT_CONSUMER_PATTERNS@),
            },
    {
        let autorun = strings(&SUSPICIOUS_AUTORUN_PATTERNS);
        let task = strings(&SUSPICIOUS_TASK_ACTIONS);
        let powershell = strings(&SUSPICIOUS_POWERSHELL_PATTERNS);
        let service = strings(&SUSPICIOUS_SERVICE_PATTERNS);
        let wmi = strings(&WMI_EVENT_CONSUMER_PATTERNS);
        match user_config {
            Some(c) => match &c.windows {
                Some(p) => WindowsPatterns {
                    autorun: choose_list(&p.suspicious_autorun_patterns, autorun),
                    task: choose_list(&p.suspicious_task_actions, task),
                    powershell: choose_list(&p.suspicious_powershell_patterns, powershell),
                    service: choose_list(&p.suspicious_service_patterns, service),
                    wmi: choose_list(&p.wmi_event_consumer_patterns, wmi),
                },
                None => WindowsPatterns { autorun, task, powershell, service, wmi },
            },
            None => WindowsPatterns { autorun, task, powershell, service, wmi },
        }
    }
}

// ---------------------------------------------------------------------------
// Registry Run keys
// ---------------------------------------------------------------------------

/// The notes for one Run-key value: it is always listed, and flagged when
/// it matches an autorun pattern.
pub open spec fn autorun_notes_spec(
    hive: Seq<char>,
    key: Seq<char>,
    name: Seq<char>,
    value: Seq<char>,
    patterns: Seq<Seq<char>>,
) -> Seq<(Severity, Seq<char>)> {
    let at = hive + "\\"@ + key;
    seq![(Severity::Info, at + ": "@ + name + " = "@ + value)] + (if matches_any(value, patterns) {
        seq![(Severity::Warning, "Suspicious autorun entry in "@ + at + ": "@ + name + " = "@ + value)]
    } else {
        Seq::<(Severity, Seq<char>)>::empty()
    })
}

/// The notes to record for a registry Run-key value.
pub fn autorun_notes(hive: &str, key: &str, name: &str, value: &str, patterns: &[String]) -> (r: Vec<Note>)
    ensures
        notes_view(r@) == autorun_notes_spec(hive@, key@, name@, value@, strings_view(patterns@)),
{
    let mut out: Vec<Note> = Vec::new();
    let mut m = String::new();
    m.append(hive);
    m.append("\\");
    m.append(key);
    m.append(": ");
    m.append(name);
    m.append(" = ");
    m.append(value);
    let ghost at = hive@ + "\\"@ + key@;
    assert(m@ =~= at + ": "@ + name@ + " = "@ + value@);
    let ghost first = seq![(Severity::Info, m@)];
    push_note(&mut out, info_note(m));
    assert(notes_view(out@) =~= first);
    if matches_any_pattern(value, patterns) {
        let mut f = String::new();
        f.append("Suspicious autorun entry in ");
        f.append(hive);
        f.append("\\");
        f.append(key);
        f.append(": ");
        f.append(name);
        f.append(" = ");
        f.append(value);
        assert(f@ =~= "Suspicious autorun entry in "@ + at + ": "@ + name@ + " = "@ + value@);
        push_note(&mut out, warning_note(f));
        assert(notes_view(out@) =~= first + seq![(Severity::Warning, f@)]);
    }
    assert(notes_view(out@) =~= autorun_notes_spec(hive@, key@, name@, value@, strings_view(patterns@)));
    out
}

// ---------------------------------------------------------------------------
// WMI event consumers
// ---------------------------------------------------------------------------

/// The notes for the lines of the WMI query: each trimmed, non-blank line
/// that is not the column title is flagged when it matches, else listed.
pub open spec fn wmi_scan(ls: Seq<Seq<char>>, patterns: Seq<Seq<char>>) -> Seq<(Severity, Seq<char>)>
    decreases ls.len(),
{
    if ls.len() == 0 {
        Seq::empty()
    } else {
        let rest = wmi_scan(ls.drop_last(), patterns);
        let l = trim(ls.last());
        if l.len() == 0 || has_substring(lower_text(l), "commandlinetemplate"@) {
            rest
        } else if matches_any(l, patterns) {
            rest.push((Severity::Warning, "Suspicious WMI event consumer command: "@ + l))
        } else {
            rest.push((Severity::Info, "WMI event consumer: "@ + l))
        }
    }
}

/// The notes for the WMI query output, or a note that there were none.
pub open spec fn wmi_notes_spec(text: Seq<char>, patterns: Seq<Seq<char>>) -> Seq<(Severity, Seq<char>)> {
    let ns = wmi_scan(lines(text), patterns);
    if ns.len() == 0 {
        seq![(Severity::Info, "(i) No WMI event consumers found."@)]
    } else {
        ns
    }
}

/// The WMI consumer notes, for all lines and patterns: one note per trimmed
/// non-blank line that is not a `CommandLineTemplate` header, in order: a
/// warning when it holds a pattern (ignoring case), else an info line.
pub proof fn lemma_wmi_scan(ls: Seq<Seq<char>>, patterns: Seq<Seq<char>>)
    ensures
        wmi_scan(ls, patterns) == ls.filter(|x: Seq<char>| trim(x).len() > 0 && !has_substring(lower_text(trim(x)), "commandlinetemplate"@)).map_values(
            |x: Seq<char>| if (exists|i: int| 0 <= i < patterns.len() && has_substring(lower_text(trim(x)), lower_text(#[trigger] patterns[i]))) { (Severity::Warning, "Suspicious WMI event consumer command: "@ + trim(x)) } else { (Severity::Info, "WMI event consumer: "@ + trim(x)) },
        ),
    decreases ls.len(),
{
    let p = |x: Seq<char>| trim(x).len() > 0 && !has_substring(lower_text(trim(x)), "commandlinetemplate"@);
    let f = |x: Seq<char>| if (exists|i: int| 0 <= i < patterns.len() && has_substring(lower_text(trim(x)), lower_text(#[trigger] patterns[i]))) { (Severity::Warning, "Suspicious WMI event consumer command: "@ + trim(x)) } else { (Severity::Info, "WMI event consumer: "@ + trim(x)) };
    if ls.len() == 0 {
        lemma_filter_map_empty(ls, p, f);
    } else {
        lemma_wmi_scan(ls.drop_last(), patterns);
        lemma_filter_map_step(ls, p, f);
    }
}

/// The notes to record for the WMI event consumer query.
pub fn wmi_notes(text: &str, patterns: &[String]) -> (r: Vec<Note>)
    ensures
        notes_view(r@) == wmi_notes_spec(text@, strings_view(patterns@)),
{
    let ls = lines_of(text);
    let ghost all = lines(text@);
    let ghost ps = strings_view(patterns@);
    let mut out: Vec<Note> = Vec::new();
    let mut i: usize = 0;
    while i < ls.len()
        invariant
            all == lines(text@),
            ps == strings_view(patterns@),
            ls@.len() == all.len(),
            forall|k: int| 0 <= k < ls@.len() ==> #[trigger] ls@[k]@ == all[k],
            i <= ls@.len(),
            notes_view(out@) == wmi_scan(all.take(i as int), ps),
        decreases ls@.len() - i,
    {
        assert(all.take(i + 1).drop_last() =~= all.take(i as int));
        assert(all.take(i + 1).last() == all[i as int]);
        let raw = chars_of(ls[i].as_str());
        let lv = trimmed_chars(&raw);
        let l = string_from_chars(&lv);
        let lower = to_lowercase(l.as_str());
        if lv.len() > 0 && !str_contains(lower.as_str(), "commandlinetemplate") {
            if matches_any_pattern(l.as_str(), patterns) {
                let mut m = String::new();
                m.append("Suspicious WMI event consumer command: ");
                m.append(l.as_str());
                push_note(&mut out, warning_note(m));
            } else {
                let mut m = String::new();
                m.append("WMI event consumer: ");
                m.append(l.as_str());
                push_note(&mut out, info_note(m));
            }
        }
        i += 1;
    }
    assert(all.take(ls@.len() as int) =~= all);
    if out.len() == 0 {
        push_note(&mut out, info_note("(i) No WMI event consumers found.".to_owned()));
        assert(notes_view(out@) =~= seq![(Severity::Info, "(i) No WMI event consumers found."@)]);
    }
    out
}

// ---------------------------------------------------------------------------
// PowerShell script blocks
// ---------------------------------------------------------------------------

/// At most the first 200 characters of `l`.
pub open spec fn first_200(l: Seq<char>) -> Seq<char> {
    if l.len() > 200 { l.take(200) } else { l }
}

/// Reading script block texts: counts the trimmed non-blank lines that match
/// a pattern and flags the first five of them (cut to 200 characters).
pub open spec fn script_block_scan(ls: Seq<Seq<char>>, patterns: Seq<Seq<char>>) -> (nat, Seq<(Severity, Seq<char>)>)
    decreases ls.len(),
{
    if ls.len() == 0 {
        (0, Seq::empty())
    } else {
        let (n, ns) = script_block_scan(ls.drop_last(), patterns);
        let l = trim(ls.last());
        if l.len() > 0 && matches_any(l, patterns) {
            if n + 1 <= 5 {
                (n + 1, ns.push((Severity::Warning, "Suspicious PowerShell script block: "@ + first_200(l))))
            } else {
                (n + 1, ns)
            }
        } else {
            (n, ns)
        }
    }
}

/// The notes for recent script block texts: the first five matches, then a
/// count of the rest, or a note that nothing matched.
pub open spec fn script_block_notes_spec(text: Seq<char>, patterns: Seq<Seq<char>>) -> Seq<(Severity, Seq<char>)> {
    let (n, ns) = script_block_scan(lines(text), patterns);
    if n > 5 {
        ns.push((Severity::Warning, "... and "@ + decimal((n - 5) as nat) + " more suspicious PowerShell script blocks"@))
    } else if n == 0 {
        ns.push((Severity::Info, "(i) No suspicious PowerShell script blocks detected in recent events."@))
    } else {
        ns
    }
}

proof fn lemma_script_block_count_bounded(ls: Seq<Seq<char>>, patterns: Seq<Seq<char>>)
    ensures
        script_block_scan(ls, patterns).0 <= ls.len(),
    decreases ls.len(),
{
    if ls.len() > 0 {
        lemma_script_block_count_bounded(ls.drop_last(), patterns);
    }
}

/// The script block scan, for all lines and patterns: it counts every
/// trimmed non-blank line that holds a pattern (ignoring case), and flags
/// the first five of them, in order, each cut to its first 200 characters.
pub proof fn lemma_script_block_scan(ls: Seq<Seq<char>>, patterns: Seq<Seq<char>>)
    ensures
        script_block_scan(ls, patterns).0 == ls.filter(
            |x: Seq<char>| trim(x).len() > 0 && (exists|i: int|
                0 <= i < patterns.len() && has_substring(lower_text(trim(x)), lower_text(#[trigger] patterns[i]))),
        ).len(),
        script_block_scan(ls, patterns).1 == {
            let m = ls.filter(
                |x: Seq<char>| trim(x).len() > 0 && (exists|i: int|
                    0 <= i < patterns.len() && has_substring(lower_text(trim(x)), lower_text(#[trigger] patterns[i]))),
            ).map_values(
                |x: Seq<char>| (Severity::Warning, "Suspicious PowerShell script block: "@ + (if trim(x).len() > 200 {
                    trim(x).take(200)
                } else {
                    trim(x)
                })),
            );
            if m.len() > 5 { m.take(5) } else { m }
        },
    decreases ls.len(),
{
    let p = |x: Seq<char>| trim(x).len() > 0 && (exists|i: int|
        0 <= i < patterns.len() && has_substring(lower_text(trim(x)), lower_text(#[trigger] patterns[i])));
    let f = |x: Seq<char>| (Severity::Warning, "Suspicious PowerShell script block: "@ + (if trim(x).len() > 200 {
        trim(x).take(200)
    } else {
        trim(x)
    }));
    let id = |x: Seq<char>| x;
    if ls.len() == 0 {
        lemma_filter_map_empty(ls, p, f);
        lemma_filter_map_empty(ls, p, id);
        assert(ls.filter(p).map_values(id) =~= ls.filter(p));
    } else {
        lemma_script_block_scan(ls.drop_last(), patterns);
        lemma_filter_map_step(ls, p, f);
        lemma_filter_map_step(ls, p, id);
        assert(ls.filter(p).map_values(id) =~= ls.filter(p));
        assert(ls.drop_last().filter(p).map_values(id) =~= ls.drop_last().filter(p));
        let m0 = ls.drop_last().filter(p).map_values(f);
        if p(ls.last()) {
            let m1 = m0.push(f(ls.last()));
            if m0.len() < 5 {
                assert(m1 =~= m0.push(f(ls.last())));
            } else if m0.len() == 5 {
                assert(m1.take(5) =~= m0);
            } else {
                assert(m1.take(5) =~= m0.take(5));
            }
        }
    }
}

/// The notes to record for the script block query.
pub fn script_block_notes(text: &str, patterns: &[String]) -> (r: Vec<Note>)
    ensures
        notes_view(r@) == script_block_notes_spec(text@, strings_view(patterns@)),
{
    let ls = lines_of(text);
    let ghost all = lines(text@);
    let ghost ps = strings_view(patterns@);
    let mut out: Vec<Note> = Vec::new();
    let mut count: usize = 0;
    let mut i: usize = 0;
    while i < ls.len()
        invariant
            all == lines(text@),
            ps == strings_view(patterns@),
            ls@.len() == all.len(),
            forall|k: int| 0 <= k < ls@.len() ==> #[trigger] ls@[k]@ == all[k],
            i <= ls@.len(),
            count == script_block_scan(all.take(i as int), ps).0,
            notes_view(out@) == script_block_scan(all.take(i as int), ps).1,
        decreases ls@.len() - i,
    {
        assert(all.take(i + 1).drop_last() =~= all.take(i as int));
        assert(all.take(i + 1).last() == all[i as int]);
        proof { lemma_script_block_count_bounded(all.take(i as int), ps); }
        let raw = chars_of(ls[i].as_str());
        let lv = trimmed_chars(&raw);
        let l = string_from_chars(&lv);
        if lv.len() > 0 && matches_any_pattern(l.as_str(), patterns) {
            count += 1;
            if count <= 5 {
                let cut = if lv.len() > 200 { 200 } else { lv.len() };
                let mut m = String::new();
                m.append("Suspicious PowerShell script block: ");
                let head = string_from_range(&lv, 0, cut);
                m.append(head.as_str());
                assert(lv@.subrange(0, cut as int) == first_200(lv@));
                push_note(&mut out, warning_note(m));
            }
        }
        i += 1;
    }
    assert(all.take(ls@.len() as int) =~= all);
    if count > 5 {
        let mut m = String::new();
        m.append("... and ");
        push_decimal(&mut m, (count - 5) as u64);
        m.append(" more suspicious PowerShell script blocks");
        push_note(&mut out, warning_note(m));
    } else if count == 0 {
        push_note(
            &mut out,
            info_note("(i) No suspicious PowerShell script blocks detected in recent events.".to_owned()),
        );
    }
    out
}

// ---------------------------------------------------------------------------
// Services
// ---------------------------------------------------------------------------

/// The notes for the rows of the service table: each row with a non-empty
/// `pathname` is flagged when the path matches, else listed; the name
/// defaults to `unknown`.
pub open spec fn service_scan(
    headers: Seq<Seq<char>>,
    rows: Seq<Seq<Seq<char>>>,
    patterns: Seq<Seq<char>>,
) -> Seq<(Severity, Seq<char>)>
    decreases rows.len(),
{
    if rows.len() == 0 {
        Seq::empty()
    } else {
        let rest = service_scan(headers, rows.drop_last(), patterns);
        let row = rows.last();
        match cell(headers, row, "pathname"@) {
            Some(p) => if p.len() == 0 {
                rest
            } else {
                let name = match cell(headers, row, "name"@) {
                    Some(n) => n,
                    None => "unknown"@,
                };
                if matches_any(p, patterns) {
                    rest.push((Severity::Warning, "Suspicious service path: "@ + name + " -> "@ + p))
                } else {
                    rest.push((Severity::Info, "Service: "@ + name + " -> "@ + p))
                }
            },
            None => rest,
        }
    }
}

/// The notes for the service query output, or a note that no service had a
/// path.
pub open spec fn service_notes_spec(text: Seq<char>, patterns: Seq<Seq<char>>) -> Seq<(Severity, Seq<char>)> {
    let t = csv_table(text);
    let ns = service_scan(t.headers, t.rows, patterns);
    if ns.len() == 0 {
        seq![(Severity::Info, "(i) No services returned path information."@)]
    } else {
        ns
    }
}

/// The service notes, for all tables and patterns: one note per row with a
/// non-empty `pathname` cell, in order: a warning when the path holds a
/// pattern (ignoring case), else an info line, naming the service (or
/// `unknown`) and its path.
pub proof fn lemma_service_scan(headers: Seq<Seq<char>>, rows: Seq<Seq<Seq<char>>>, patterns: Seq<Seq<char>>)
    ensures
        service_scan(headers, rows, patterns) == rows.filter(|x: Seq<Seq<char>>| cell(headers, x, "pathname"@) is Some && cell(headers, x, "pathname"@)->0.len() > 0).map_values(
            |x: Seq<Seq<char>>| if (exists|i: int| 0 <= i < patterns.len() && has_substring(lower_text(cell(headers, x, "pathname"@)->0), lower_text(#[trigger] patterns[i]))) { (Severity::Warning, "Suspicious service path: "@ + (if cell(headers, x, "name"@) is Some { cell(headers, x, "name"@)->0 } else { "unknown"@ }) + " -> "@ + cell(headers, x, "pathname"@)->0) } else { (Severity::Info, "Service: "@ + (if cell(headers, x, "name"@) is Some { cell(headers, x, "name"@)->0 } else { "unknown"@ }) + " -> "@ + cell(headers, x, "pathname"@)->0) },
        ),
    decreases rows.len(),
{
    let p = |x: Seq<Seq<char>>| cell(headers, x, "pathname"@) is Some && cell(headers, x, "pathname"@)->0.len() > 0;
    let f = |x: Seq<Seq<char>>| if (exists|i: int| 0 <= i < patterns.len() && has_substring(lower_text(cell(headers, x, "pathname"@)->0), lower_text(#[trigger] patterns[i]))) { (Severity::Warning, "Suspicious service path: "@ + (if cell(headers, x, "name"@) is Some { cell(headers, x, "name"@)->0 } else { "unknown"@ }) + " -> "@ + cell(headers, x, "pathname"@)->0) } else { (Severity::Info, "Service: "@ + (if cell(headers, x, "name"@) is Some { cell(headers, x, "name"@)->0 } else { "unknown"@ }) + " -> "@ + cell(headers, x, "pathname"@)->0) };
    if rows.len() == 0 {
        lemma_filter_map_empty(rows, p, f);
    } else {
        lemma_service_scan(headers, rows.drop_last(), patterns);
        lemma_filter_map_step(rows, p, f);
    }
}

/// The notes to record for the service query.
pub fn service_notes(text: &str, patterns: &[String]) -> (r: Vec<Note>)
    ensures
        notes_view(r@) == service_notes_spec(text@, strings_view(patterns@)),
{
    let table = CsvTable::parse(text);
    let ghost t = csv_table(text@);
    let ghost ps = strings_view(patterns@);
    let mut out: Vec<Note> = Vec::new();
    let n = table.row_count();
    let mut i: usize = 0;
    while i < n
        invariant
            table@ == t,
            t == csv_table(text@),
            ps == strings_view(patterns@),
            n == t.rows.len(),
            i <= n,
            notes_view(out@) == service_scan(t.headers, t.rows.take(i as int), ps),
        decreases n - i,
    {
        assert(t.rows.take(i + 1).drop_last() =~= t.rows.take(i as int));
        assert(t.rows.take(i + 1).last() == t.rows[i as int]);
        let row = table.row(i);
        match table.get(row.as_slice(), "pathname") {
            Some(p) => {
                if !p.is_empty() {
                    let name = match table.get(row.as_slice(), "name") {
                        Some(x) => x,
                        None => "unknown",
                    };
                    let mut m = String::new();
                    if matches_any_pattern(p, patterns) {
                        m.append("Suspicious service path: ");
                        m.append(name);
                        m.append(" -> ");
                        m.append(p);
                        push_note(&mut out, warning_note(m));
                    } else {
                        m.append("Service: ");
                        m.append(name);
                        m.append(" -> ");
                        m.append(p);
                        push_note(&mut out, info_note(m));
                    }
                }
            },
            None => {},
        }
        i += 1;
    }
    assert(t.rows.take(n as int) =~= t.rows);
    if out.len() == 0 {
        push_note(&mut out, info_note("(i) No services returned path information.".to_owned()));
        assert(notes_view(out@) =~= seq![(Severity::Info, "(i) No services returned path information."@)]);
    }
    out
}

// ---------------------------------------------------------------------------
// Processes
// ---------------------------------------------------------------------------

/// The warnings for the rows of the process table: each row with a non-empty
/// `executablepath` that contains a suspicious directory (ignoring case);
/// name and process id default to `unknown` and `?`.
pub open spec fn process_scan(
    headers: Seq<Seq<char>>,
    rows: Seq<Seq<Seq<char>>>,
    dirs: Seq<Seq<char>>,
) -> Seq<(Severity, Seq<char>)>
    decreases rows.len(),
{
    if rows.len() == 0 {
        Seq::empty()
    } else {
        let rest = process_scan(headers, rows.drop_last(), dirs);
        let row = rows.last();
        match cell(headers, row, "executablepath"@) {
            Some(exe) => if exe.len() > 0 && matches_any(exe, dirs) {
                let name = match cell(headers, row, "name"@) {
                    Some(x) => x,
                    None => "unknown"@,
                };
                let pid = match cell(headers, row, "processid"@) {
                    Some(x) => x,
                    None => "?"@,
                };
                rest.push((Severity::Warning, "PID "@ + pid + " ("@ + name + ") running from suspicious location: "@ + exe))
            } else {
                rest
            },
            None => rest,
        }
    }
}

/// The notes for the process query output, or a note that nothing matched.
pub open spec fn process_notes_spec(text: Seq<char>, dirs: Seq<Seq<char>>) -> Seq<(Severity, Seq<char>)> {
    let t = csv_table(text);
    let ns = process_scan(t.headers, t.rows, dirs);
    if ns.len() == 0 {
        seq![(Severity::Info, "(i) No processes running from suspicious locations."@)]
    } else {
        ns
    }
}

/// The process notes, for all tables and directories: one warning per row
/// whose non-empty `executablepath` cell holds a suspicious directory
/// (ignoring case), in order, naming the pid (or `?`), the name (or
/// `unknown`) and the path.
pub proof fn lemma_process_scan(headers: Seq<Seq<char>>, rows: Seq<Seq<Seq<char>>>, dirs: Seq<Seq<char>>)
    ensures
        process_scan(headers, rows, dirs) == rows.filter(|x: Seq<Seq<char>>| cell(headers, x, "executablepath"@) is Some && cell(headers, x, "executablepath"@)->0.len() > 0 && (exists|i: int| 0 <= i < dirs.len() && has_substring(lower_text(cell(headers, x, "executablepath"@)->0), lower_text(#[trigger] dirs[i])))).map_values(
            |x: Seq<Seq<char>>| (Severity::Warning, "PID "@ + (if cell(headers, x, "processid"@) is Some { cell(headers, x, "processid"@)->0 } else { "?"@ }) + " ("@ + (if cell(headers, x, "name"@) is Some { cell(headers, x, "name"@)->0 } else { "unknown"@ }) + ") running from suspicious location: "@ + cell(headers, x, "executablepath"@)->0),
        ),
    decreases rows.len(),
{
    let p = |x: Seq<Seq<char>>| cell(headers, x, "executablepath"@) is Some && cell(headers, x, "executablepath"@)->0.len() > 0 && (exists|i: int| 0 <= i < dirs.len() && has_substring(lower_text(cell(headers, x, "executablepath"@)->0), lower_text(#[trigger] dirs[i])));
    let f = |x: Seq<Seq<char>>| (Severity::Warning, "PID "@ + (if cell(headers, x, "processid"@) is Some { cell(headers, x, "processid"@)->0 } else { "?"@ }) + " ("@ + (if cell(headers, x, "name"@) is Some { cell(headers, x, "name"@)->0 } else { "unknown"@ }) + ") running from suspicious location: "@ + cell(headers, x, "executablepath"@)->0);
    if rows.len() == 0 {
        lemma_filter_map_empty(rows, p, f);
    } else {
        lemma_process_scan(headers, rows.drop_last(), dirs);
        lemma_filter_map_step(rows, p, f);
    }
}

/// The notes to record for the process query.
pub fn process_notes(text: &str, sus_dirs: &[String]) -> (r: Vec<Note>)
    ensures
        notes_view(r@) == process_notes_spec(text@, strings_view(sus_dirs@)),
{
    let table = CsvTable::parse(text);
    let ghost t = csv_table(text@);
    let ghost ds = strings_view(sus_dirs@);
    let mut out: Vec<Note> = Vec::new();
    let n = table.row_count();
    let mut i: usize = 0;
    while i < n
        invariant
            table@ == t,
            t == csv_table(text@),
            ds == strings_view(sus_dirs@),
            n == t.rows.len(),
            i <= n,
            notes_view(out@) == process_scan(t.headers, t.rows.take(i as int), ds),
        decreases n - i,
    {
        assert(t.rows.take(i + 1).drop_last() =~= t.rows.take(i as int));
        assert(t.rows.take(i + 1).last() == t.rows[i as int]);
        let row = table.row(i);
        match table.get(row.as_slice(), "executablepath") {
            Some(exe) => {
                if !exe.is_empty() && matches_any_pattern(exe, sus_dirs) {
                    let name = match table.get(row.as_slice(), "name") {
                        Some(x) => x,
                        None => "unknown",
                    };
                    let pid = match table.get(row.as_slice(), "processid") {
                        Some(x) => x,
                        None => "?",
                    };
                    let mut m = String::new();
                    m.append("PID ");
                    m.append(pid);
                    m.append(" (");
                    m.append(name);
                    m.append(") running from suspicious location: ");
                    m.append(exe);
                    push_note(&mut out, warning_note(m));
                }
            },
            None => {},
        }
        i += 1;
    }
    assert(t.rows.take(n as int) =~= t.rows);
    if out.len() == 0 {
        push_note(&mut out, info_note("(i) No processes running from suspicious locations.".to_owned()));
        assert(notes_view(out@) =~= seq![(Severity::Info, "(i) No processes running from suspicious locations."@)]);
    }
    out
}

// ---------------------------------------------------------------------------
// Processes via `tasklist` (last resort)
// ---------------------------------------------------------------------------

/// A `tasklist` line that mentions a suspicious directory.
#[derive(Debug)]
pub struct TasklistHit {
    pub name: String,
    pub dir: String,
}

impl View for TasklistHit {
    type V = (Seq<char>, Seq<char>);

    open spec fn view(&self) -> (Seq<char>, Seq<char>) {
        (self.name@, self.dir@)
    }
}

/// The values of a list of `tasklist` hits.
pub open spec fn hits_view(v: Seq<TasklistHit>) -> Seq<(Seq<char>, Seq<char>)> {
    v.map_values(|h: TasklistHit| h@)
}

/// The first of `dirs` that `line` contains, ignoring case.
pub open spec fn first_dir_in(line: Seq<char>, dirs: Seq<Seq<char>>) -> Option<int>
    decreases dirs.len(),
{
    if dirs.len() == 0 {
        None
    } else {
        match first_dir_in(line, dirs.drop_last()) {
            Some(i) => Some(i),
            None => if has_substring(lower_text(line), lower_text(dirs.last())) {
                Some(dirs.len() - 1)
            } else {
                None
            },
        }
    }
}

/// The hits among `tasklist /v /fo csv` lines: each trimmed non-blank line
/// that contains a suspicious directory, with the trimmed first field as
/// the image name.
pub open spec fn tasklist_scan(ls: Seq<Seq<char>>, dirs: Seq<Seq<char>>) -> Seq<(Seq<char>, Seq<char>)>
    decreases ls.len(),
{
    if ls.len() == 0 {
        Seq::empty()
    } else {
        let rest = tasklist_scan(ls.drop_last(), dirs);
        let l = trim(ls.last());
        if l.len() == 0 {
            rest
        } else {
            match first_dir_in(l, dirs) {
                Some(d) => rest.push((trim(csv_fields(l)[0]), dirs[d])),
                None => rest,
            }
        }
    }
}

fn first_dir_index(line: &str, sus_dirs: &[String]) -> (r: Option<usize>)
    ensures
        match r {
            Some(i) => first_dir_in(line@, strings_view(sus_dirs@)) == Some(i as int) && i < sus_dirs@.len(),
            None => first_dir_in(line@, strings_view(sus_dirs@)) is None,
        },
{
    let lower = to_lowercase(line);
    let lv = chars_of(lower.as_str());
    let ghost ds = strings_view(sus_dirs@);
    let mut i: usize = 0;
    while i < sus_dirs.len()
        invariant
            ds == strings_view(sus_dirs@),
            lv@ == lower_text(line@),
            i <= sus_dirs@.len(),
            first_dir_in(line@, ds.take(i as int)) is None,
        decreases sus_dirs@.len() - i,
    {
        assert(ds.take(i + 1).drop_last() =~= ds.take(i as int));
        assert(ds.take(i + 1).last() == sus_dirs@[i as int]@);
        let d = to_lowercase(sus_dirs[i].as_str());
        let dv = chars_of(d.as_str());
        if chars_contain(&lv, &dv) {
            proof { lemma_first_dir_prefix(line@, ds, i as int + 1); }
            return Some(i);
        }
        i += 1;
    }
    assert(ds.take(sus_dirs@.len() as int) =~= ds);
    None
}

proof fn lemma_first_dir_prefix(line: Seq<char>, ds: Seq<Seq<char>>, k: int)
    requires
        0 <= k <= ds.len(),
        first_dir_in(line, ds.take(k)) is Some,
    ensures
        first_dir_in(line, ds) == first_dir_in(line, ds.take(k)),
    decreases ds.len() - k,
{
    if k < ds.len() {
        assert(ds.take(k + 1).drop_last() =~= ds.take(k));
        lemma_first_dir_prefix(line, ds, k + 1);
    } else {
        assert(ds.take(k) =~= ds);
    }
}

/// The directory a line mentions, for all lines and directory lists: the
/// smallest index whose directory occurs in the line (both lowercased), or
/// none when no directory does.
pub proof fn lemma_first_dir_in(line: Seq<char>, dirs: Seq<Seq<char>>)
    ensures
        first_dir_in(line, dirs) matches Some(i) ==> 0 <= i < dirs.len() && has_substring(
            lower_text(line),
            lower_text(dirs[i]),
        ) && forall|j: int| 0 <= j < i ==> !has_substring(lower_text(line), lower_text(#[trigger] dirs[j])),
        first_dir_in(line, dirs) is None ==> forall|j: int|
            0 <= j < dirs.len() ==> !has_substring(lower_text(line), lower_text(#[trigger] dirs[j])),
    decreases dirs.len(),
{
    if dirs.len() > 0 {
        let d = dirs.drop_last();
        lemma_first_dir_in(line, d);
        assert forall|j: int| 0 <= j < d.len() implies #[trigger] d[j] == dirs[j] by {}
        if first_dir_in(line, d) is None {
            assert forall|j: int| 0 <= j < dirs.len() - 1 implies !has_substring(lower_text(line), lower_text(#[trigger] dirs[j])) by {
                assert(d[j] == dirs[j]);
            }
            assert(dirs.last() == dirs[dirs.len() - 1]);
        } else {
            let i = first_dir_in(line, d)->0;
            assert(d[i] == dirs[i]);
            assert forall|j: int| 0 <= j < i implies !has_substring(lower_text(line), lower_text(#[trigger] dirs[j])) by {
                assert(d[j] == dirs[j]);
            }
        }
    }
}

/// The `tasklist` hits, for all lines and directories: one hit per trimmed
/// non-blank line that mentions a suspicious directory (ignoring case), in
/// order, with the trimmed first CSV field as the image name and the first
/// directory it mentions.
pub proof fn lemma_tasklist_scan(ls: Seq<Seq<char>>, dirs: Seq<Seq<char>>)
    ensures
        tasklist_scan(ls, dirs) == ls.filter(|x: Seq<char>| trim(x).len() > 0 && first_dir_in(trim(x), dirs) is Some).map_values(
            |x: Seq<char>| (trim(csv_fields(trim(x))[0]), dirs[first_dir_in(trim(x), dirs)->0]),
        ),
    decreases ls.len(),
{
    let p = |x: Seq<char>| trim(x).len() > 0 && first_dir_in(trim(x), dirs) is Some;
    let f = |x: Seq<char>| (trim(csv_fields(trim(x))[0]), dirs[first_dir_in(trim(x), dirs)->0]);
    if ls.len() == 0 {
        lemma_filter_map_empty(ls, p, f);
    } else {
        lemma_tasklist_scan(ls.drop_last(), dirs);
        lemma_filter_map_step(ls, p, f);
    }
}

/// The `tasklist` lines that mention a suspicious directory.
pub fn tasklist_hits(text: &str, sus_dirs: &[String]) -> (r: Vec<TasklistHit>)
    ensures
        hits_view(r@) == tasklist_scan(lines(text@), strings_view(sus_dirs@)),
{
    let ls = lines_of(text);
    let ghost all = lines(text@);
    let ghost ds = strings_view(sus_dirs@);
    let mut out: Vec<TasklistHit> = Vec::new();
    let mut i: usize = 0;
    while i < ls.len()
        invariant
            all == lines(text@),
            ds == strings_view(sus_dirs@),
            ls@.len() == all.len(),
            forall|k: int| 0 <= k < ls@.len() ==> #[trigger] ls@[k]@ == all[k],
            i <= ls@.len(),
            hits_view(out@) == tasklist_scan(all.take(i as int), ds),
        decreases ls@.len() - i,
    {
        assert(all.take(i + 1).drop_last() =~= all.take(i as int));
        assert(all.take(i + 1).last() == all[i as int]);
        let raw = chars_of(ls[i].as_str());
        let lv = trimmed_chars(&raw);
        if lv.len() > 0 {
            let l = string_from_chars(&lv);
            match first_dir_index(l.as_str(), sus_dirs) {
                Some(d) => {
                    let fields = parse_csv_line(l.as_str());
                    proof { crate::platform::win_helpers::lemma_csv_scan_len(l@, 0, Seq::empty(), Seq::empty(), false); }
                    let name = crate::text::trimmed_string(fields[0].as_str());
                    let dir = sus_dirs[d].clone();
                    let ghost before = out@;
                    out.push(TasklistHit { name, dir });
                    assert(hits_view(out@) =~= hits_view(before).push((name@, dir@)));
                },
                None => {},
            }
        }
        i += 1;
    }
    assert(all.take(ls@.len() as int) =~= all);
    out
}

/// The warning for a `tasklist` hit: with the full path when the image name
/// resolved on the search path (`resolved` non-empty), else with the
/// directory it mentions.
pub open spec fn tasklist_note_spec(hit: (Seq<char>, Seq<char>), resolved: Seq<char>) -> (Severity, Seq<char>) {
    if resolved.len() == 0 {
        (Severity::Warning, "Process image name references suspicious dir ("@ + hit.1 + "): "@ + hit.0)
    } else {
        (Severity::Warning, "Process running from suspicious location: "@ + resolved + " ("@ + hit.0 + ")"@)
    }
}

/// The warning to record for a `tasklist` hit.
pub fn tasklist_note(hit: &TasklistHit, resolved: &str) -> (r: Note)
    ensures
        r@ == tasklist_note_spec(hit@, resolved@),
{
    let mut m = String::new();
    if resolved.is_empty() {
        m.append("Process image name references suspicious dir (");
        m.append(hit.dir.as_str());
        m.append("): ");
        m.append(hit.name.as_str());
    } else {
        m.append("Process running from suspicious location: ");
        m.append(resolved);
        m.append(" (");
        m.append(hit.name.as_str());
        m.append(")");
    }
    warning_note(m)
}
/// The notes for the `tasklist` hits, each with the path its image name
/// resolved to (empty when it did not resolve), or a note that nothing
/// matched.
pub open spec fn tasklist_notes_spec(hits: Seq<(Seq<char>, Seq<char>)>, resolved: Seq<Seq<char>>) -> Seq<(Severity, Seq<char>)> {
    if hits.len() == 0 {
        seq![(Severity::Info, "(i) No processes matched suspicious locations via tasklist."@)]
    } else {
        Seq::new(hits.len(), |i: int| tasklist_note_spec(hits[i], resolved[i]))
    }
}

/// The notes to record for the `tasklist` hits; `resolved[i]` is where the
/// image name of `hits[i]` was found on the search path, or empty.
pub fn tasklist_notes(hits: &Vec<TasklistHit>, resolved: &Vec<String>) -> (r: Vec<Note>)
    requires
        resolved@.len() == hits@.len(),
    ensures
        notes_view(r@) == tasklist_notes_spec(hits_view(hits@), strings_view(resolved@)),
{
    let mut out: Vec<Note> = Vec::new();
    if hits.len() == 0 {
        push_note(&mut out, info_note("(i) No processes matched suspicious locations via tasklist.".to_owned()));
        assert(notes_view(out@) =~= tasklist_notes_spec(hits_view(hits@), strings_view(resolved@)));
        return out;
    }
    let ghost hv = hits_view(hits@);
    let ghost rv = strings_view(resolved@);
    let mut i: usize = 0;
    while i < hits.len()
        invariant
            hv == hits_view(hits@),
            rv == strings_view(resolved@),
            resolved@.len() == hits@.len(),
            i <= hits@.len(),
            notes_view(out@) =~= Seq::new(i as nat, |k: int| tasklist_note_spec(hv[k], rv[k])),
        decreases hits@.len() - i,
    {
        let n = tasklist_note(&hits[i], resolved[i].as_str());
        let ghost before = notes_view(out@);
        push_note(&mut out, n);
        assert(notes_view(out@) =~= Seq::new((i + 1) as nat, |k: int| tasklist_note_spec(hv[k], rv[k])));
        i += 1;
    }
    out
}
} // verus!
