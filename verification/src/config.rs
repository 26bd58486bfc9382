//! Built-in detection settings and the path test for suspicious locations.
use vstd::prelude::*;
use crate::report::strings_view;
use crate::text::{chars_of, split_chars, split_on, lemma_split_on_nonempty};

verus! {

/// How many days back the recently-modified-files pass looks by default.
pub const RECENT_FILE_DAYS: u64 = 3;

/// Shell start-up files inspected on Linux, relative to the home directory.
pub const SHELL_RC_FILES: [&'static str; 2] = [".bashrc", ".profile"];

/// Directories scanned for recent modifications on Linux.
pub const PERSISTENCE_SCAN_DIRS: [&'static str; 2] = ["/etc", "/usr/local/bin"];

/// Registry keys under HKCU and HKLM whose values run at log-on (Windows).
pub const PERSISTENCE_REGISTRY_RUN_PATHS: [&'static str; 2] = [
    "Software\\Microsoft\\Windows\\CurrentVersion\\Run",
    "Software\\Microsoft\\Windows\\CurrentVersion\\RunOnce",
];

/// Autorun value fragments flagged on Windows.
pub const SUSPICIOUS_AUTORUN_PATTERNS: [&'static str; 6] = [
    "powershell -enc",
    "-windowstyle hidden",
    "\\appdata\\local\\temp",
    "\\users\\public",
    "mshta",
    "certutil -decode",
];

/// Scheduled-task action fragments flagged on Windows.
pub const SUSPICIOUS_TASK_ACTIONS: [&'static str; 7] = [
    "powershell",
    "cmd /c",
    "mshta",
    "certutil",
    "\\temp\\",
    "\\appdata\\",
    "\\users\\public",
];

/// Service image path fragments flagged on Windows.
pub const SUSPICIOUS_SERVICE_PATTERNS: [&'static str; 7] = [
    "\\temp\\",
    "\\appdata\\local\\temp",
    "\\users\\public",
    "powershell",
    "cmd /c",
    "mshta",
    "certutil",
];

/// WMI event consumer command fragments flagged on Windows.
pub const WMI_EVENT_CONSUMER_PATTERNS: [&'static str; 6] = [
    "powershell",
    "cmd /c",
    "mshta",
    "certutil",
    "wscript",
    "cscript",
];

/// PowerShell script block fragments flagged on Windows.
pub const SUSPICIOUS_POWERSHELL_PATTERNS: [&'static str; 21] = [
    "invoke-expression",
    "iex(",
    "iex (",
    "downloadstring",
    "invoke-webrequest",
    "start-process",
    "encodedcommand",
    "frombase64string",
    "bitstransfer",
    "start-bitstransfer",
    "invoke-cimmethod",
    "get-wmiobject",
    "set-maliciousvalue",
    "hidden",
    "-nop",
    "-noni",
    "bypass",
    "downloadfile",
    "invoke-restmethod",
    "new-object net.webclient",
    "invoke-atomictest",
];

/// Plist content fragments flagged on macOS.
pub const SUSPICIOUS_PLIST_PATTERNS: [&'static str; 4] = ["curl", "wget", "/tmp/", "base64"];

/// Crontab entry fragments flagged on macOS.
pub const SUSPICIOUS_CRON_PATTERNS: [&'static str; 4] = ["curl", "wget", "base64", "/tmp/"];

/// `launchctl list` label fragments flagged on macOS.
pub const SUSPICIOUS_LAUNCHCTL_OUTPUT: [&'static str; 6] = ["curl", "wget", "/tmp/", "base64", "mshta", "powershell"];

/// Shell start-up files inspected on macOS.
pub const MACOS_SHELL_RC_FILES: [&'static str; 3] = [".zshrc", ".bash_profile", ".zprofile"];

/// Kernel extension directories listed on macOS.
pub const MACOS_KEXT_SCAN_DIRS: [&'static str; 2] = ["/Library/Extensions", "/System/Library/Extensions"];

/// System and network extension directories inspected on macOS.
pub const MACOS_NETWORK_EXTENSION_DIRS: [&'static str; 2] = ["/Library/SystemExtensions", "/Library/NetworkExtensions"];

/// The values of a list of string slices.
pub open spec fn strs_view(v: Seq<&str>) -> Seq<Seq<char>> {
    v.map_values(|s: &str| s@)
}

/// Owned copies of a list of string slices.
pub fn strings(consts: &[&str]) -> (r: Vec<String>)
    ensures
        strings_view(r@) == strs_view(consts@),
{
    let mut out: Vec<String> = Vec::new();
    let mut i: usize = 0;
    while i < consts.len()
        invariant
            i <= consts@.len(),
            strings_view(out@) == strs_view(consts@).take(i as int),
        decreases consts@.len() - i,
    {
        let ghost before = out@;
        let c = consts[i].to_owned();
        out.push(c);
        assert(strings_view(out@) =~= strings_view(before).push(c@));
        assert(strs_view(consts@).take(i + 1) =~= strs_view(consts@).take(i as int).push(consts@[i as int]@));
        i += 1;
    }
    assert(strs_view(consts@).take(consts@.len() as int) =~= strs_view(consts@));
    out
}

/// Temporary and world-writable directories that a legitimate program
/// rarely runs from (Linux).
pub open spec fn linux_suspicious_dirs() -> Seq<Seq<char>> {
    seq!["/tmp"@, "/dev/shm"@, "/var/tmp"@]
}

/// The same for macOS.
pub open spec fn macos_suspicious_dirs_spec() -> Seq<Seq<char>> {
    seq!["/tmp"@, "/var/tmp"@, "/private/tmp"@, "/Users/Shared"@]
}

/// Suspicious directories of this platform (Linux).
pub fn suspicious_dirs() -> (r: Vec<String>)
    ensures
        strings_view(r@) == linux_suspicious_dirs(),
{
    let mut v: Vec<String> = Vec::new();
    v.push("/tmp".to_owned());
    v.push("/dev/shm".to_owned());
    v.push("/var/tmp".to_owned());
    assert(strings_view(v@) =~= linux_suspicious_dirs());
    v
}

/// Suspicious directories on macOS.
pub fn macos_suspicious_dirs() -> (r: Vec<String>)
    ensures
        strings_view(r@) == macos_suspicious_dirs_spec(),
{
    let mut v: Vec<String> = Vec::new();
    v.push("/tmp".to_owned());
    v.push("/var/tmp".to_owned());
    v.push("/private/tmp".to_owned());
    v.push("/Users/Shared".to_owned());
    assert(strings_view(v@) =~= macos_suspicious_dirs_spec());
    v
}

// ---------------------------------------------------------------------------
// Paths
// ---------------------------------------------------------------------------

/// The pieces of a path that are ordinary names: neither empty (from
/// repeated or trailing `/`) nor `.`.
pub open spec fn normal_parts(pieces: Seq<Seq<char>>) -> Seq<Seq<char>>
    decreases pieces.len(),
{
    if pieces.len() == 0 {
        Seq::empty()
    } else {
        let rest = normal_parts(pieces.drop_last());
        let p = pieces.last();
        if p.len() > 0 && p != seq!['.'] { rest.push(p) } else { rest }
    }
}

/// The components of a Unix path, as `Path::components` yields them: `/`
/// for a leading root, `.` for a leading current-directory mark, then the
/// names; repeated separators, trailing separators and inner `.` vanish.
pub open spec fn path_components(p: Seq<char>) -> Seq<Seq<char>> {
    let pieces = split_on(p, '/');
    (if p.len() > 0 && p[0] == '/' { seq![seq!['/']] } else { Seq::<Seq<char>>::empty() })
        + (if pieces[0] == seq!['.'] { seq![seq!['.']] } else { Seq::<Seq<char>>::empty() })
        + normal_parts(pieces)
}

/// `base` is made of whole leading components of `path`
/// (`Path::starts_with`).
pub open spec fn path_starts_with(path: Seq<char>, base: Seq<char>) -> bool {
    let a = path_components(path);
    let b = path_components(base);
    b.len() <= a.len() && a.take(b.len() as int) == b
}

/// `exe` lies under one of `dirs`.
pub open spec fn under_any(exe: Seq<char>, dirs: Seq<Seq<char>>) -> bool {
    exists|i: int| 0 <= i < dirs.len() && path_starts_with(exe, #[trigger] dirs[i])
}

fn is_dot(p: &Vec<char>) -> (b: bool)
    ensures
        b == (p@ == seq!['.']),
{
    if p.len() == 1 && p[0] == '.' {
        assert(p@ =~= seq!['.']);
        true
    } else {
        false
    }
}

fn path_components_of(s: &str) -> (r: Vec<Vec<char>>)
    ensures
        r@.len() == path_components(s@).len(),
        forall|i: int| 0 <= i < r@.len() ==> #[trigger] r@[i]@ == path_components(s@)[i],
{
    let v = chars_of(s);
    let pieces = split_chars(&v, '/');
    proof { lemma_split_on_nonempty(v@, '/'); }
    let ghost ps = split_on(v@, '/');
    let mut out: Vec<Vec<char>> = Vec::new();
    let ghost head: Seq<Seq<char>> = Seq::empty();
    if v.len() > 0 && v[0] == '/' {
        let mut root: Vec<char> = Vec::new();
        root.push('/');
        out.push(root);
        proof { head = seq![seq!['/']]; }
    }
    if is_dot(&pieces[0]) {
        let mut dot: Vec<char> = Vec::new();
        dot.push('.');
        out.push(dot);
        proof { head = head + seq![seq!['.']]; }
    }
    assert(head =~= (if v@.len() > 0 && v@[0] == '/' { seq![seq!['/']] } else { Seq::<Seq<char>>::empty() })
        + (if ps[0] == seq!['.'] { seq![seq!['.']] } else { Seq::<Seq<char>>::empty() }));
    let mut i: usize = 0;
    while i < pieces.len()
        invariant
            ps == split_on(v@, '/'),
            pieces@.len() == ps.len(),
            forall|k: int| 0 <= k < pieces@.len() ==> #[trigger] pieces@[k]@ == ps[k],
            i <= pieces@.len(),
            out@.len() == head.len() + normal_parts(ps.take(i as int)).len(),
            forall|k: int| 0 <= k < out@.len() ==> #[trigger] out@[k]@ == (head + normal_parts(ps.take(i as int)))[k],
        decreases pieces@.len() - i,
    {
        assert(ps.take(i + 1).drop_last() =~= ps.take(i as int));
        assert(ps.take(i + 1).last() == ps[i as int]);
        let p = &pieces[i];
        if p.len() > 0 && !is_dot(p) {
            let copy = p.clone();
            out.push(copy);
            assert(head + normal_parts(ps.take(i + 1)) =~= (head + normal_parts(ps.take(i as int))).push(ps[i as int]));
        }
        i += 1;
    }
    assert(ps.take(pieces@.len() as int) =~= ps);
    out
}

fn component_lists_prefix(a: &Vec<Vec<char>>, b: &Vec<Vec<char>>) -> (r: bool)
    ensures
        r == (b@.len() <= a@.len() && forall|k: int| 0 <= k < b@.len() ==> #[trigger] a@[k]@ == b@[k]@),
{
    if b.len() > a.len() {
        return false;
    }
    let mut k: usize = 0;
    while k < b.len()
        invariant
            b@.len() <= a@.len(),
            k <= b@.len(),
            forall|j: int| 0 <= j < k ==> #[trigger] a@[j]@ == b@[j]@,
        decreases b@.len() - k,
    {
        let x = &a[k];
        let y = &b[k];
        if x.len() != y.len() {
            return false;
        }
        let mut j: usize = 0;
        while j < x.len()
            invariant
                k < b@.len() <= a@.len(),
                x@ == a@[k as int]@,
                y@ == b@[k as int]@,
                x@.len() == y@.len(),
                j <= x@.len(),
                forall|t: int| 0 <= t < j ==> x@[t] == y@[t],
            decreases x@.len() - j,
        {
            if x[j] != y[j] {
                assert(x@[j as int] != y@[j as int]);
                assert(a@[k as int]@ != b@[k as int]@);
                return false;
            }
            j += 1;
        }
        assert(x@ =~= y@);
        k += 1;
    }
    true
}

/// Whether the executable path `exe` lies under `dir` (whole components).
pub fn path_under(exe: &str, dir: &str) -> (r: bool)
    ensures
        r == path_starts_with(exe@, dir@),
{
    let a = path_components_of(exe);
    let b = path_components_of(dir);
    let r = component_lists_prefix(&a, &b);
    proof {
        let pa = path_components(exe@);
        let pb = path_components(dir@);
        if r {
            assert forall|k: int| 0 <= k < pb.len() implies pa.take(pb.len() as int)[k] == pb[k] by {
                assert(a@[k]@ == b@[k]@);
            }
            assert(pa.take(pb.len() as int) =~= pb);
        } else if pb.len() <= pa.len() {
            let k = choose|k: int| 0 <= k < b@.len() && !(#[trigger] a@[k]@ == b@[k]@);
            assert(pa.take(pb.len() as int)[k] != pb[k]);
        }
    }
    r
}

/// Whether `exe_str` lies under one of `sus_dirs`, comparing whole path
/// components.
pub fn path_is_suspicious(exe_str: &str, sus_dirs: &[String]) -> (r: bool)
    ensures
        r == under_any(exe_str@, strings_view(sus_dirs@)),
{
    let ghost ds = strings_view(sus_dirs@);
    let mut i: usize = 0;
    while i < sus_dirs.len()
        invariant
            ds == strings_view(sus_dirs@),
            i <= sus_dirs@.len(),
            forall|k: int| 0 <= k < i ==> !path_starts_with(exe_str@, #[trigger] ds[k]),
        decreases sus_dirs@.len() - i,
    {
        assert(ds[i as int] == sus_dirs@[i as int]@);
        if path_under(exe_str, sus_dirs[i].as_str()) {
            return true;
        }
        i += 1;
    }
    false
}

} // verus!
