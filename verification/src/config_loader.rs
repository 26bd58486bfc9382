//! The user configuration: optional overrides of the built-in detection
//! settings, per platform. Reading and parsing the TOML file happens in the
//! program around the library; the library holds the values and the rules
//! for choosing between them and the defaults.
use vstd::prelude::*;
use crate::report::strings_view;

verus! {

/// Overrides for one platform; `None` keeps the built-in list.
#[derive(Clone, Debug)]
pub struct PlatformConfig {
    pub suspicious_autorun_patterns: Option<Vec<String>>,
    pub suspicious_task_actions: Option<Vec<String>>,
    pub suspicious_powershell_patterns: Option<Vec<String>>,
    pub suspicious_service_patterns: Option<Vec<String>>,
    pub wmi_event_consumer_patterns: Option<Vec<String>>,
    pub suspicious_plist_patterns: Option<Vec<String>>,
    pub suspicious_cron_patterns: Option<Vec<String>>,
    pub suspicious_launchctl_output: Option<Vec<String>>,
    pub shell_rc_files: Option<Vec<String>>,
    pub persistence_scan_dirs: Option<Vec<String>>,
}

/// The whole configuration file.
#[derive(Clone, Debug)]
pub struct UserConfig {
    pub recent_file_days: Option<u64>,
    pub windows: Option<PlatformConfig>,
    pub macos: Option<PlatformConfig>,
    pub linux: Option<PlatformConfig>,
}

impl Default for PlatformConfig {
    fn default() -> (r: PlatformConfig)
        ensures
            r.suspicious_autorun_patterns is None,
            r.suspicious_task_actions is None,
            r.suspicious_powershell_patterns is None,
            r.suspicious_service_patterns is None,
            r.wmi_event_consumer_patterns is None,
            r.suspicious_plist_patterns is None,
            r.suspicious_cron_patterns is None,
            r.suspicious_launchctl_output is None,
            r.shell_rc_files is None,
            r.persistence_scan_dirs is None,
    {
        PlatformConfig {
            suspicious_autorun_patterns: None,
            suspicious_task_actions: None,
            suspicious_powershell_patterns: None,
            suspicious_service_patterns: None,
            wmi_event_consumer_patterns: None,
            suspicious_plist_patterns: None,
            suspicious_cron_patterns: None,
            suspicious_launchctl_output: None,
            shell_rc_files: None,
            persistence_scan_dirs: None,
        }
    }
}

impl Default for UserConfig {
    fn default() -> (r: UserConfig)
        ensures
            r.recent_file_days is None,
            r.windows is None,
            r.macos is None,
            r.linux is None,
    {
        UserConfig { recent_file_days: None, windows: None, macos: None, linux: None }
    }
}

/// The list an override gives, or the defaults when there is none.
pub open spec fn chosen_list(o: Option<Vec<String>>, defaults: Seq<Seq<char>>) -> Seq<Seq<char>> {
    match o {
        Some(v) => strings_view(v@),
        None => defaults,
    }
}

/// A copy of a list of strings.
pub fn copy_strings(v: &Vec<String>) -> (r: Vec<String>)
    ensures
        strings_view(r@) == strings_view(v@),
{
    let mut out: Vec<String> = Vec::new();
    let mut i: usize = 0;
    while i < v.len()
        invariant
            i <= v@.len(),
            strings_view(out@) == strings_view(v@).take(i as int),
        decreases v@.len() - i,
    {
        let ghost before = out@;
        let c = v[i].clone();
        assert(c@ == v@[i as int]@);
        out.push(c);
        assert(strings_view(out@) =~= strings_view(before).push(c@));
        assert(strings_view(out@) =~= strings_view(v@).take(i + 1));
        i += 1;
    }
    assert(strings_view(v@).take(v@.len() as int) =~= strings_view(v@));
    out
}

/// The override `o` if present, else a copy of `defaults`.
pub fn choose_list(o: &Option<Vec<String>>, defaults: Vec<String>) -> (r: Vec<String>)
    ensures
        strings_view(r@) == chosen_list(*o, strings_view(defaults@)),
{
    match o {
        Some(v) => copy_strings(v),
        None => defaults,
    }
}

/// The look-back window for recently modified files: the configured number
/// of days, else `default_days`.
pub fn recent_file_days(user_config: Option<&UserConfig>, default_days: u64) -> (r: u64)
    ensures
        r == match user_config {
            Some(c) => match c.recent_file_days {
                Some(d) => d,
                None => default_days,
            },
            None => default_days,
        },
{
    match user_config {
        Some(c) => match c.recent_file_days {
            Some(d) => d,
            None => default_days,
        },
        None => default_days,
    }
}

} // verus!
