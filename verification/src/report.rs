//! The scan report: structured entries plus an ordered list of section
//! titles. The plain-text view is derived from the entries on demand, so it
//! cannot drift out of sync with them.
use vstd::prelude::*;
pub use crate::calendar::epoch_to_iso;
use crate::calendar::iso_timestamp;
use crate::text::{decimal, push_char, push_decimal};


verus! {

/// How urgent an entry is, least urgent first.
#[derive(Clone, Copy, Debug, PartialEq, Eq, PartialOrd, Ord, Structural)]
pub enum Severity {
    Info,
    Warning,
    Critical,
}

/// The plain-text marker of a severity.
pub open spec fn severity_label(s: Severity) -> Seq<char> {
    match s {
        Severity::Info => ""@,
        Severity::Warning => "[!]"@,
        Severity::Critical => "[CRIT]"@,
    }
}

impl Severity {
    /// The plain-text marker: empty for info, `[!]` for warnings, `[CRIT]`
    /// for critical findings.
    pub fn label(self) -> (r: &'static str)
        ensures
            r@ == severity_label(self),
    {
        match self {
            Severity::Info => "",
            Severity::Warning => "[!]",
            Severity::Critical => "[CRIT]",
        }
    }
}

/// One recorded line of the report.
#[derive(Clone, Debug)]
pub struct Entry {
    pub severity: Severity,
    pub message: String,
    pub section: String,
}

/// The mathematical value of an [`Entry`].
pub struct EntryView {
    pub severity: Severity,
    pub message: Seq<char>,
    pub section: Seq<char>,
}

impl View for Entry {
    type V = EntryView;

    open spec fn view(&self) -> EntryView {
        EntryView { severity: self.severity, message: self.message@, section: self.section@ }
    }
}

/// The values of a sequence of entries.
pub open spec fn entries_view(es: Seq<Entry>) -> Seq<EntryView> {
    es.map_values(|e: Entry| e@)
}

/// The values of a sequence of strings.
pub open spec fn strings_view(ss: Seq<String>) -> Seq<Seq<char>> {
    ss.map_values(|s: String| s@)
}

/// How one line of the plain-text report reads.
pub open spec fn rendered_line(severity: Severity, message: Seq<char>) -> Seq<char> {
    match severity {
        Severity::Info => message,
        Severity::Warning => "[!] "@ + message,
        Severity::Critical => "[CRIT] "@ + message,
    }
}

/// Renders one line: the message, prefixed by `[!] ` for a warning and by
/// `[CRIT] ` for a critical finding.
pub fn render_line(severity: Severity, message: &str) -> (r: String)
    ensures
        r@ == rendered_line(severity, message@),
{
    let mut out = String::new();
    match severity {
        Severity::Info => {},
        Severity::Warning => out.append("[!] "),
        Severity::Critical => out.append("[CRIT] "),
    }
    out.append(message);
    out
}

impl Entry {
    /// The entry as one plain-text line.
    pub fn render(&self) -> (r: String)
        ensures
            r@ == rendered_line(self.severity, self.message@),
    {
        render_line(self.severity, self.message.as_str())
    }

    /// A copy of the entry with the same value.
    pub fn duplicate(&self) -> (r: Entry)
        ensures
            r@ == self@,
    {
        Entry {
            severity: self.severity,
            message: self.message.clone(),
            section: self.section.clone(),
        }
    }
}

/// Number of entries per severity.
#[derive(Clone, Copy, Debug, PartialEq, Eq, Structural)]
pub struct SeverityCounts {
    pub info: u32,
    pub warning: u32,
    pub critical: u32,
}

impl Default for SeverityCounts {
    fn default() -> (r: SeverityCounts)
        ensures
            r == (SeverityCounts { info: 0, warning: 0, critical: 0 }),
    {
        SeverityCounts { info: 0, warning: 0, critical: 0 }
    }
}

impl SeverityCounts {
    /// All entries together.
    pub fn total(&self) -> (r: u32)
        requires
            self.info + self.warning + self.critical <= u32::MAX,
        ensures
            r == self.info + self.warning + self.critical,
    {
        self.info + self.warning + self.critical
    }
}


// ---------------------------------------------------------------------------
// The clock
// ---------------------------------------------------------------------------

#[verifier::external_type_specification]
#[verifier::external_body]
pub struct ExSystemTime(std::time::SystemTime);

/// `SystemTime::now`: the current time; nothing is known of its value.
#[verifier::external_body]
fn system_now() -> std::time::SystemTime {
    std::time::SystemTime::now()
}

/// `SystemTime::duration_since(UNIX_EPOCH)`: the time elapsed since the
/// Unix epoch, or `None` for a time before it; nothing is stated of the
/// value, which depends on the clock.
#[verifier::external_body]
fn duration_since_epoch(t: std::time::SystemTime) -> Option<std::time::Duration> {
    t.duration_since(std::time::UNIX_EPOCH).ok()
}

/// `Duration::as_secs`: the whole seconds of a duration; nothing is stated
/// of a duration that comes from the clock.
#[verifier::external_body]
fn whole_seconds(d: std::time::Duration) -> u64 {
    d.as_secs()
}

// ---------------------------------------------------------------------------
// The report
// ---------------------------------------------------------------------------

/// Scan report: findings are stored once, as structured entries, plus an
/// ordered list of section titles; the plain-text view is derived from them.
///
/// `current_section` is the writer state that attributes new entries to the
/// section they were logged under.
#[derive(Clone, Debug)]
pub struct Report {
    timestamp_epoch: u64,
    timestamp_iso: String,
    sections: Vec<String>,
    entries: Vec<Entry>,
    findings: u32,
    severity_counts: SeverityCounts,
    current_section: String,
}

/// The mathematical value of a [`Report`].
pub struct ReportView {
    pub timestamp_epoch: u64,
    pub timestamp_iso: Seq<char>,
    pub sections: Seq<Seq<char>>,
    pub entries: Seq<EntryView>,
    pub findings: u32,
    pub severity_counts: SeverityCounts,
    pub current_section: Seq<char>,
}

impl View for Report {
    type V = ReportView;

    closed spec fn view(&self) -> ReportView {
        ReportView {
            timestamp_epoch: self.timestamp_epoch,
            timestamp_iso: self.timestamp_iso@,
            sections: strings_view(self.sections@),
            entries: entries_view(self.entries@),
            findings: self.findings,
            severity_counts: self.severity_counts,
            current_section: self.current_section@,
        }
    }
}

/// A fresh report stamped `epoch` seconds after the Unix epoch.
pub open spec fn empty_report(epoch: u64) -> ReportView {
    ReportView {
        timestamp_epoch: epoch,
        timestamp_iso: iso_timestamp(epoch as nat),
        sections: Seq::empty(),
        entries: Seq::empty(),
        findings: 0,
        severity_counts: SeverityCounts { info: 0, warning: 0, critical: 0 },
        current_section: Seq::empty(),
    }
}

/// `r` with one more entry of `severity` under the current section.
pub open spec fn with_entry(r: ReportView, severity: Severity, message: Seq<char>) -> ReportView {
    ReportView {
        entries: r.entries.push(EntryView { severity, message, section: r.current_section }),
        ..r
    }
}

/// Number of entries of `severity` in `es`.
pub open spec fn count_severity(es: Seq<EntryView>, severity: Severity) -> nat
    decreases es.len(),
{
    if es.len() == 0 {
        0
    } else {
        count_severity(es.drop_last(), severity) + (if es.last().severity == severity { 1nat } else { 0nat })
    }
}

/// The counters of `r` agree with its entries: one count per severity, and
/// the findings are the warnings plus the critical entries.
pub open spec fn counts_agree(r: ReportView) -> bool {
    &&& r.severity_counts.info == count_severity(r.entries, Severity::Info)
    &&& r.severity_counts.warning == count_severity(r.entries, Severity::Warning)
    &&& r.severity_counts.critical == count_severity(r.entries, Severity::Critical)
    &&& r.findings == r.severity_counts.warning + r.severity_counts.critical
}

impl Default for Report {
    /// Same as [`Report::new`].
    fn default() -> (r: Report)
        ensures
            r@ == empty_report(r@.timestamp_epoch),
            counts_agree(r@),
    {
        Report::new()
    }
}

impl Report {
    /// A fresh report stamped with the given time.
    pub fn new_at(epoch_secs: u64) -> (r: Report)
        ensures
            r@ == empty_report(epoch_secs),
            counts_agree(r@),
    {
        let r = Report {
            timestamp_epoch: epoch_secs,
            timestamp_iso: epoch_to_iso(epoch_secs),
            sections: Vec::new(),
            entries: Vec::new(),
            findings: 0,
            severity_counts: SeverityCounts::default(),
            current_section: String::new(),
        };
        assert(r@.sections =~= Seq::<Seq<char>>::empty());
        assert(r@.entries =~= Seq::<EntryView>::empty());
        r
    }

    /// A fresh report stamped with the current time (seconds since the Unix
    /// epoch; zero if the clock reads earlier than the epoch).
    pub fn new() -> (r: Report)
        ensures
            r@ == empty_report(r@.timestamp_epoch),
            counts_agree(r@),
    {
        let secs = match duration_since_epoch(system_now()) {
            Some(d) => whole_seconds(d),
            None => 0,
        };
        Report::new_at(secs)
    }

    /// A report from stored parts (as read back from a saved report); the
    /// writer starts with no current section.
    pub fn from_parts(
        timestamp_epoch: u64,
        timestamp_iso: String,
        sections: Vec<String>,
        entries: Vec<Entry>,
        findings: u32,
        severity_counts: SeverityCounts,
    ) -> (r: Report)
        ensures
            r@ == (ReportView {
                timestamp_epoch,
                timestamp_iso: timestamp_iso@,
                sections: strings_view(sections@),
                entries: entries_view(entries@),
                findings,
                severity_counts,
                current_section: Seq::empty(),
            }),
    {
        Report {
            timestamp_epoch,
            timestamp_iso,
            sections,
            entries,
            findings,
            severity_counts,
            current_section: String::new(),
        }
    }

    /// Opens a section: records its title and files later entries under it.
    pub fn section(&mut self, title: &str)
        ensures
            final(self)@ == (ReportView {
                sections: old(self)@.sections.push(title@),
                current_section: title@,
                ..old(self)@
            }),
    {
        self.sections.push(title.to_owned());
        self.current_section = title.to_owned();
        assert(self@.sections =~= old(self)@.sections.push(title@));
    }

    /// All entries in the order they were recorded.
    pub fn entries(&self) -> (r: &[Entry])
        ensures
            entries_view(r@) == self@.entries,
    {
        self.entries.as_slice()
    }

    /// All section titles in the order they were opened.
    pub fn sections(&self) -> (r: &[String])
        ensures
            strings_view(r@) == self@.sections,
    {
        self.sections.as_slice()
    }

    /// Number of warning + critical findings.
    pub fn findings(&self) -> (r: u32)
        ensures
            r == self@.findings,
    {
        self.findings
    }

    /// Per-severity counts.
    pub fn severity_counts(&self) -> (r: SeverityCounts)
        ensures
            r == self@.severity_counts,
    {
        self.severity_counts
    }

    /// Scan timestamp as Unix epoch seconds.
    pub fn timestamp_epoch(&self) -> (r: u64)
        ensures
            r == self@.timestamp_epoch,
    {
        self.timestamp_epoch
    }

    /// Scan timestamp as an ISO-8601 UTC string.
    pub fn timestamp_iso(&self) -> (r: &str)
        ensures
            r@ == self@.timestamp_iso,
    {
        self.timestamp_iso.as_str()
    }

    fn push(&mut self, severity: Severity, message: &str)
        ensures
            final(self)@ == with_entry(old(self)@, severity, message@),
    {
        let section = self.current_section.clone();
        self.entries.push(Entry { severity, message: message.to_owned(), section });
        assert(self@.entries =~= old(self)@.entries.push(EntryView { severity, message: message@, section: old(self)@.current_section }));
    }

    /// Records an informational line.
    pub fn log(&mut self, msg: &str)
        requires
            has_room(old(self)@, Severity::Info),
        ensures
            final(self)@ == recorded(old(self)@, Severity::Info, msg@),
            counts_agree(old(self)@) ==> counts_agree(final(self)@),
    {
        self.severity_counts.info += 1;
        self.push(Severity::Info, msg);
        proof { assert(self@.entries.drop_last() =~= old(self)@.entries); }
    }

    /// Records a warning finding.
    pub fn warn(&mut self, msg: &str)
        requires
            has_room(old(self)@, Severity::Warning),
        ensures
            final(self)@ == recorded(old(self)@, Severity::Warning, msg@),
            counts_agree(old(self)@) ==> counts_agree(final(self)@),
    {
        self.severity_counts.warning += 1;
        self.findings += 1;
        self.push(Severity::Warning, msg);
        proof { assert(self@.entries.drop_last() =~= old(self)@.entries); }
    }

    /// Records a warning finding (same as [`Report::warn`]).
    pub fn flag(&mut self, msg: &str)
        requires
            has_room(old(self)@, Severity::Warning),
        ensures
            final(self)@ == recorded(old(self)@, Severity::Warning, msg@),
            counts_agree(old(self)@) ==> counts_agree(final(self)@),
    {
        self.warn(msg);
    }

    /// Records a critical finding.
    pub fn critical(&mut self, msg: &str)
        requires
            has_room(old(self)@, Severity::Critical),
        ensures
            final(self)@ == recorded(old(self)@, Severity::Critical, msg@),
            counts_agree(old(self)@) ==> counts_agree(final(self)@),
    {
        self.severity_counts.critical += 1;
        self.findings += 1;
        self.push(Severity::Critical, msg);
        proof { assert(self@.entries.drop_last() =~= old(self)@.entries); }
    }
}


// ---------------------------------------------------------------------------
// Plain-text rendering
// ---------------------------------------------------------------------------

/// The first line: `scan time: <iso> (epoch:<seconds>)`.
pub open spec fn header_line(r: ReportView) -> Seq<char> {
    "scan time: "@ + r.timestamp_iso + " (epoch:"@ + decimal(r.timestamp_epoch as nat) + ")"@
}

/// `== <title> ==`.
pub open spec fn section_heading(title: Seq<char>) -> Seq<char> {
    "== "@ + title + " =="@
}

/// The rendered lines of the entries of `es` that satisfy `keep`, in order.
pub open spec fn rendered_where(es: Seq<EntryView>, keep: spec_fn(EntryView) -> bool) -> Seq<Seq<char>>
    decreases es.len(),
{
    if es.len() == 0 {
        Seq::empty()
    } else {
        let rest = rendered_where(es.drop_last(), keep);
        if keep(es.last()) {
            rest.push(rendered_line(es.last().severity, es.last().message))
        } else {
            rest
        }
    }
}

/// The entries recorded before any section was opened.
pub open spec fn in_preamble(e: EntryView) -> bool {
    e.section.len() == 0
}

/// The entries filed under section `title`.
pub open spec fn in_section(e: EntryView, title: Seq<char>) -> bool {
    e.section == title
}

/// The entries filed under a section that was never declared.
pub open spec fn is_orphan(e: EntryView, sections: Seq<Seq<char>>) -> bool {
    e.section.len() > 0 && !sections.contains(e.section)
}

/// A blank line, the heading of `title`, then its entries.
pub open spec fn section_block(es: Seq<EntryView>, title: Seq<char>) -> Seq<Seq<char>> {
    seq![Seq::<char>::empty(), section_heading(title)] + rendered_where(es, |e: EntryView| in_section(e, title))
}

/// The blocks of the first `n` section titles; a title already seen earlier
/// adds nothing, so each distinct title is rendered once.
pub open spec fn section_blocks(sections: Seq<Seq<char>>, es: Seq<EntryView>, n: int) -> Seq<Seq<char>>
    decreases n,
{
    if n <= 0 {
        Seq::empty()
    } else {
        section_blocks(sections, es, n - 1) + (if sections.take(n - 1).contains(sections[n - 1]) {
            Seq::<Seq<char>>::empty()
        } else {
            section_block(es, sections[n - 1])
        })
    }
}

/// The plain-text report, line by line: the header, the preamble entries,
/// one block per distinct section, then entries of undeclared sections.
pub open spec fn rendered_lines(r: ReportView) -> Seq<Seq<char>> {
    seq![header_line(r)]
        + rendered_where(r.entries, |e: EntryView| in_preamble(e))
        + section_blocks(r.sections, r.entries, r.sections.len() as int)
        + rendered_where(r.entries, |e: EntryView| is_orphan(e, r.sections))
}

/// Lines joined by `\n`.
pub open spec fn joined(ls: Seq<Seq<char>>) -> Seq<char>
    decreases ls.len(),
{
    if ls.len() == 0 {
        Seq::empty()
    } else if ls.len() == 1 {
        ls[0]
    } else {
        joined(ls.drop_last()) + seq!['\n'] + ls.last()
    }
}

/// Whether `s` is among the first `upto` strings of `v`.
fn strings_prefix_contains(v: &Vec<String>, upto: usize, s: &String) -> (b: bool)
    requires
        upto <= v@.len(),
    ensures
        b == strings_view(v@).take(upto as int).contains(s@),
{
    let mut i: usize = 0;
    while i < upto
        invariant
            upto <= v@.len(),
            i <= upto,
            forall|k: int| 0 <= k < i ==> strings_view(v@)[k] != s@,
        decreases upto - i,
    {
        if v[i] == *s {
            assert(strings_view(v@).take(upto as int)[i as int] == s@);
            return true;
        }
        i += 1;
    }
    assert forall|k: int| 0 <= k < upto implies strings_view(v@).take(upto as int)[k] != s@ by {
        assert(strings_view(v@).take(upto as int)[k] == strings_view(v@)[k]);
    }
    false
}

impl Report {
    /// Which entries a filter keeps: 0 the preamble, 1 the section `title`,
    /// 2 the undeclared sections.
    closed spec fn keeps(&self, which: u8, title: Seq<char>) -> spec_fn(EntryView) -> bool {
        if which == 0 {
            |e: EntryView| in_preamble(e)
        } else if which == 1 {
            |e: EntryView| in_section(e, title)
        } else {
            |e: EntryView| is_orphan(e, self@.sections)
        }
    }

    fn push_rendered_where(&self, out: &mut Vec<String>, which: u8, title: &String)
        ensures
            strings_view(final(out)@) == strings_view(old(out)@) + rendered_where(self@.entries, self.keeps(which, title@)),
    {
        let ghost keep = self.keeps(which, title@);
        let mut i: usize = 0;
        while i < self.entries.len()
            invariant
                keep == self.keeps(which, title@),
                i <= self.entries@.len(),
                strings_view(out@) == strings_view(old(out)@) + rendered_where(self@.entries.take(i as int), keep),
            decreases self.entries@.len() - i,
        {
            let e = &self.entries[i];
            let selected = if which == 0 {
                e.section.as_str().is_empty()
            } else if which == 1 {
                e.section == *title
            } else {
                !e.section.as_str().is_empty() && !strings_prefix_contains(&self.sections, self.sections.len(), &e.section)
            };
            proof {
                assert(self@.entries.take(i + 1).drop_last() =~= self@.entries.take(i as int));
                assert(self@.entries.take(i + 1).last() == e@);
                assert(strings_view(self.sections@).take(self.sections@.len() as int) =~= self@.sections);
                assert(selected == keep(e@));
            }
            if selected {
                let line = e.render();
                let ghost before = out@;
                out.push(line);
                assert(strings_view(out@) =~= strings_view(before).push(line@));
            }
            i += 1;
        }
        assert(self@.entries.take(self.entries@.len() as int) =~= self@.entries);
    }

    /// The plain-text report line by line (see [`rendered_lines`]).
    pub fn render_lines(&self) -> (r: Vec<String>)
        ensures
            strings_view(r@) == rendered_lines(self@),
    {
        let mut out: Vec<String> = Vec::new();
        let mut header = String::new();
        header.append("scan time: ");
        header.append(self.timestamp_iso.as_str());
        header.append(" (epoch:");
        push_decimal(&mut header, self.timestamp_epoch);
        header.append(")");
        out.push(header);
        assert(strings_view(out@) =~= seq![header_line(self@)]);
        let empty = String::new();
        self.push_rendered_where(&mut out, 0, &empty);
        let ghost after_preamble = strings_view(out@);
        let mut idx: usize = 0;
        while idx < self.sections.len()
            invariant
                idx <= self.sections@.len(),
                strings_view(out@) == after_preamble + section_blocks(self@.sections, self@.entries, idx as int),
            decreases self.sections@.len() - idx,
        {
            let title = &self.sections[idx];
            let seen = strings_prefix_contains(&self.sections, idx, title);
            proof {
                assert(self@.sections[idx as int] == title@);
                assert(self@.sections.take(idx as int) == strings_view(self.sections@).take(idx as int));
            }
            if !seen {
                let ghost before = strings_view(out@);
                out.push(String::new());
                let mut heading = String::new();
                heading.append("== ");
                heading.append(title.as_str());
                heading.append(" ==");
                out.push(heading);
                assert(strings_view(out@) =~= before + seq![Seq::<char>::empty(), section_heading(title@)]);
                self.push_rendered_where(&mut out, 1, title);
                assert(strings_view(out@) =~= before + section_block(self@.entries, title@));
            } else {
                assert(strings_view(out@) =~= strings_view(out@) + Seq::<Seq<char>>::empty());
            }
            idx += 1;
        }
        self.push_rendered_where(&mut out, 2, &empty);
        assert(strings_view(out@) =~= rendered_lines(self@));
        out
    }

    /// The plain-text report: the rendered lines joined by `\n`.
    pub fn join(&self) -> (r: String)
        ensures
            r@ == joined(rendered_lines(self@)),
    {
        let lines = self.render_lines();
        let ghost ls = strings_view(lines@);
        let mut out = String::new();
        let mut i: usize = 0;
        while i < lines.len()
            invariant
                ls == strings_view(lines@),
                i <= lines@.len(),
                out@ == joined(ls.take(i as int)),
            decreases lines@.len() - i,
        {
            if i > 0 {
                push_char(&mut out, '\n');
            }
            out.append(lines[i].as_str());
            assert(ls.take(i + 1).drop_last() =~= ls.take(i as int));
            i += 1;
        }
        assert(ls.take(lines@.len() as int) =~= ls);
        out
    }
}

// ---------------------------------------------------------------------------
// Ordering by urgency
// ---------------------------------------------------------------------------

/// The entries of `es` with severity `s`, in their recorded order.
pub open spec fn entries_of(es: Seq<EntryView>, s: Severity) -> Seq<EntryView>
    decreases es.len(),
{
    if es.len() == 0 {
        Seq::empty()
    } else {
        let rest = entries_of(es.drop_last(), s);
        if es.last().severity == s { rest.push(es.last()) } else { rest }
    }
}

/// The entries ordered critical first, then warnings, then info; entries of
/// equal severity keep their recorded order (a stable sort by urgency).
pub open spec fn by_urgency(es: Seq<EntryView>) -> Seq<EntryView> {
    entries_of(es, Severity::Critical) + entries_of(es, Severity::Warning) + entries_of(es, Severity::Info)
}

/// 2 for critical, 1 for warning, 0 for info.
pub open spec fn urgency(s: Severity) -> int {
    match s {
        Severity::Info => 0,
        Severity::Warning => 1,
        Severity::Critical => 2,
    }
}

proof fn lemma_entries_of_severity(es: Seq<EntryView>, s: Severity)
    ensures
        forall|i: int| 0 <= i < entries_of(es, s).len() ==> (#[trigger] entries_of(es, s)[i]).severity == s,
        entries_of(es, s).len() == count_severity(es, s),
    decreases es.len(),
{
    if es.len() > 0 {
        lemma_entries_of_severity(es.drop_last(), s);
    }
}

/// Ordering by urgency never puts a less urgent entry before a more urgent
/// one, and keeps the number of entries of each severity.
pub proof fn lemma_by_urgency_sorted(es: Seq<EntryView>)
    ensures
        forall|i: int, j: int|
            0 <= i < j < by_urgency(es).len() ==> urgency(#[trigger] by_urgency(es)[i].severity) >= urgency(
                #[trigger] by_urgency(es)[j].severity,
            ),
        count_severity(by_urgency(es), Severity::Critical) == count_severity(es, Severity::Critical),
        count_severity(by_urgency(es), Severity::Warning) == count_severity(es, Severity::Warning),
        count_severity(by_urgency(es), Severity::Info) == count_severity(es, Severity::Info),
{
    lemma_entries_of_severity(es, Severity::Critical);
    lemma_entries_of_severity(es, Severity::Warning);
    lemma_entries_of_severity(es, Severity::Info);
    let c = entries_of(es, Severity::Critical);
    let w = entries_of(es, Severity::Warning);
    let n = entries_of(es, Severity::Info);
    let u = by_urgency(es);
    assert forall|i: int| 0 <= i < u.len() implies urgency(#[trigger] u[i].severity) == (if i < c.len() {
        2int
    } else if i < c.len() + w.len() {
        1int
    } else {
        0int
    }) by {
        if i < c.len() {
            assert(u[i] == c[i]);
        } else if i < c.len() + w.len() {
            assert(u[i] == w[i - c.len()]);
        } else {
            assert(u[i] == n[i - c.len() - w.len()]);
        }
    }
    lemma_count_concat(c + w, n, Severity::Critical);
    lemma_count_concat(c, w, Severity::Critical);
    lemma_count_concat(c + w, n, Severity::Warning);
    lemma_count_concat(c, w, Severity::Warning);
    lemma_count_concat(c + w, n, Severity::Info);
    lemma_count_concat(c, w, Severity::Info);
    lemma_count_uniform(c, Severity::Critical);
    lemma_count_uniform(w, Severity::Warning);
    lemma_count_uniform(n, Severity::Info);
}

proof fn lemma_count_concat(a: Seq<EntryView>, b: Seq<EntryView>, s: Severity)
    ensures
        count_severity(a + b, s) == count_severity(a, s) + count_severity(b, s),
    decreases b.len(),
{
    if b.len() > 0 {
        lemma_count_concat(a, b.drop_last(), s);
        assert((a + b).drop_last() =~= a + b.drop_last());
    } else {
        assert(a + b =~= a);
    }
}

/// In a sequence whose entries all have severity `t`, `count_severity` is the
/// length for `t` and zero for the others.
proof fn lemma_count_uniform(a: Seq<EntryView>, t: Severity)
    requires
        forall|i: int| 0 <= i < a.len() ==> (#[trigger] a[i]).severity == t,
    ensures
        count_severity(a, t) == a.len(),
        forall|s: Severity| s != t ==> #[trigger] count_severity(a, s) == 0,
    decreases a.len(),
{
    if a.len() > 0 {
        let d = a.drop_last();
        assert forall|i: int| 0 <= i < d.len() implies (#[trigger] d[i]).severity == t by {
            assert(d[i] == a[i]);
        }
        lemma_count_uniform(d, t);
        assert(a.last() == a[a.len() - 1]);
        assert forall|s: Severity| s != t implies #[trigger] count_severity(a, s) == 0 by {
            assert(count_severity(d, s) == 0);
        }
    }
}

impl Report {
    /// Appends copies of the entries of severity `s`, in recorded order.
    fn push_entries_of(&self, out: &mut Vec<Entry>, s: Severity)
        ensures
            entries_view(final(out)@) == entries_view(old(out)@) + entries_of(self@.entries, s),
    {
        let mut i: usize = 0;
        while i < self.entries.len()
            invariant
                i <= self.entries@.len(),
                entries_view(out@) == entries_view(old(out)@) + entries_of(self@.entries.take(i as int), s),
            decreases self.entries@.len() - i,
        {
            let e = &self.entries[i];
            proof {
                assert(self@.entries.take(i + 1).drop_last() =~= self@.entries.take(i as int));
                assert(self@.entries.take(i + 1).last() == e@);
            }
            if e.severity == s {
                let ghost before = out@;
                out.push(e.duplicate());
                assert(entries_view(out@) =~= entries_view(before).push(e@));
            }
            i += 1;
        }
        assert(self@.entries.take(self.entries@.len() as int) =~= self@.entries);
    }

    /// Copies of all entries, most urgent first (see [`by_urgency`]).
    pub fn entries_by_urgency(&self) -> (r: Vec<Entry>)
        ensures
            entries_view(r@) == by_urgency(self@.entries),
    {
        let mut out: Vec<Entry> = Vec::new();
        assert(entries_view(out@) =~= Seq::<EntryView>::empty());
        self.push_entries_of(&mut out, Severity::Critical);
        self.push_entries_of(&mut out, Severity::Warning);
        self.push_entries_of(&mut out, Severity::Info);
        assert(entries_view(out@) =~= by_urgency(self@.entries));
        out
    }
}

// ---------------------------------------------------------------------------
// Laws of rendering
// ---------------------------------------------------------------------------

proof fn lemma_section_blocks_prefix(s: Seq<Seq<char>>, t: Seq<char>, es: Seq<EntryView>, n: int)
    requires
        0 <= n <= s.len(),
    ensures
        section_blocks(s.push(t), es, n) == section_blocks(s, es, n),
    decreases n,
{
    if n > 0 {
        lemma_section_blocks_prefix(s, t, es, n - 1);
        assert(s.push(t).take(n - 1) =~= s.take(n - 1));
        assert(s.push(t)[n - 1] == s[n - 1]);
    }
}

/// Opening a section whose title was opened before changes nothing in the
/// rendered report: its heading still appears once, and the entries filed
/// under it in either stretch are listed together in that one block.
pub proof fn lemma_reopened_section_renders_once(r: ReportView, t: Seq<char>)
    requires
        r.sections.contains(t),
    ensures
        rendered_lines(ReportView { sections: r.sections.push(t), ..r }) == rendered_lines(r),
{
    let s = r.sections;
    let s2 = s.push(t);
    lemma_section_blocks_prefix(s, t, r.entries, s.len() as int);
    assert(s2.take(s.len() as int) =~= s);
    assert(section_blocks(s2, r.entries, s2.len() as int) =~= section_blocks(s, r.entries, s.len() as int));
    assert forall|x: Seq<char>| s2.contains(x) == s.contains(x) by {
        if s2.contains(x) && !s.contains(x) {
            let k = choose|k: int| 0 <= k < s2.len() && s2[k] == x;
            if k < s.len() {
                assert(s[k] == x);
            }
        }
        if s.contains(x) {
            let k = choose|k: int| 0 <= k < s.len() && s[k] == x;
            assert(s2[k] == x);
        }
    }
    let f1 = |e: EntryView| is_orphan(e, s2);
    let f2 = |e: EntryView| is_orphan(e, s);
    assert(f1 =~= f2);
}

proof fn lemma_blocks_grow(s: Seq<Seq<char>>, es: Seq<EntryView>, e: EntryView, n: int)
    requires
        0 <= n <= s.len(),
    ensures
        section_blocks(s, es.push(e), n).len() == section_blocks(s, es, n).len() + (if s.take(n).contains(
            e.section,
        ) {
            1int
        } else {
            0int
        }),
    decreases n,
{
    if n > 0 {
        lemma_blocks_grow(s, es, e, n - 1);
        let t = s[n - 1];
        assert(es.push(e).drop_last() =~= es);
        let f = |x: EntryView| in_section(x, t);
        assert(rendered_where(es.push(e), f).len() == rendered_where(es, f).len() + (if e.section == t {
            1int
        } else {
            0int
        }));
        assert(s.take(n).contains(e.section) == (s.take(n - 1).contains(e.section) || t == e.section)) by {
            if s.take(n).contains(e.section) {
                let k = choose|k: int| 0 <= k < n && #[trigger] s.take(n)[k] == e.section;
                if k < n - 1 {
                    assert(s.take(n - 1)[k] == e.section);
                }
            }
            if s.take(n - 1).contains(e.section) {
                let k = choose|k: int| 0 <= k < n - 1 && #[trigger] s.take(n - 1)[k] == e.section;
                assert(s.take(n)[k] == e.section);
            }
            assert(s.take(n)[n - 1] == t);
        }
    } else {
        assert(s.take(0).len() == 0);
    }
}

/// Every recorded entry is rendered exactly once: recording one more entry
/// adds exactly one line to the plain-text report (as long as no section
/// was opened with an empty title, which would also collect the preamble).
pub proof fn lemma_each_entry_rendered_once(r: ReportView, e: EntryView)
    requires
        !r.sections.contains(Seq::<char>::empty()),
    ensures
        rendered_lines(ReportView { entries: r.entries.push(e), ..r }).len() == rendered_lines(r).len() + 1,
{
    let s = r.sections;
    let es = r.entries;
    lemma_blocks_grow(s, es, e, s.len() as int);
    assert(s.take(s.len() as int) =~= s);
    assert(es.push(e).drop_last() =~= es);
    if e.section.len() == 0 {
        assert(e.section =~= Seq::<char>::empty());
    }
}

impl Report {
    /// The exit status of a scan: 2 when anything was flagged, 0 when clean.
    pub fn exit_code(&self) -> (r: i32)
        ensures
            r == (if self@.findings > 0 { 2i32 } else { 0i32 }),
    {
        if self.findings > 0 { 2 } else { 0 }
    }
}

// ---------------------------------------------------------------------------
// Notes: lines a check wants recorded
// ---------------------------------------------------------------------------

/// A line a check wants recorded, with its severity.
#[derive(Clone, Debug)]
pub struct Note {
    pub severity: Severity,
    pub message: String,
}

impl View for Note {
    type V = (Severity, Seq<char>);

    open spec fn view(&self) -> (Severity, Seq<char>) {
        (self.severity, self.message@)
    }
}

/// The values of a sequence of notes.
pub open spec fn notes_view(ns: Seq<Note>) -> Seq<(Severity, Seq<char>)> {
    ns.map_values(|n: Note| n@)
}

/// An informational note.
pub fn info_note(message: String) -> (r: Note)
    ensures
        r@ == (Severity::Info, message@),
{
    Note { severity: Severity::Info, message }
}

/// A warning note.
pub fn warning_note(message: String) -> (r: Note)
    ensures
        r@ == (Severity::Warning, message@),
{
    Note { severity: Severity::Warning, message }
}

/// A critical note.
pub fn critical_note(message: String) -> (r: Note)
    ensures
        r@ == (Severity::Critical, message@),
{
    Note { severity: Severity::Critical, message }
}

/// Appends a note to a list of notes.
pub fn push_note(notes: &mut Vec<Note>, n: Note)
    ensures
        notes_view(final(notes)@) == notes_view(old(notes)@).push(n@),
{
    let ghost before = notes@;
    notes.push(n);
    assert(notes_view(notes@) =~= notes_view(before).push(n@));
}

/// The counters that recording an entry of `severity` raises are below
/// their limit.
pub open spec fn has_room(r: ReportView, severity: Severity) -> bool {
    match severity {
        Severity::Info => r.severity_counts.info < u32::MAX,
        Severity::Warning => r.severity_counts.warning < u32::MAX && r.findings < u32::MAX,
        Severity::Critical => r.severity_counts.critical < u32::MAX && r.findings < u32::MAX,
    }
}

/// `r` after recording `message` with `severity`: the entry is added under
/// the current section, its severity is counted, and a warning or critical
/// entry counts as a finding.
pub open spec fn recorded(r: ReportView, severity: Severity, message: Seq<char>) -> ReportView {
    let c = r.severity_counts;
    match severity {
        Severity::Info => ReportView {
            severity_counts: SeverityCounts { info: (c.info + 1) as u32, ..c },
            ..with_entry(r, severity, message)
        },
        Severity::Warning => ReportView {
            severity_counts: SeverityCounts { warning: (c.warning + 1) as u32, ..c },
            findings: (r.findings + 1) as u32,
            ..with_entry(r, severity, message)
        },
        Severity::Critical => ReportView {
            severity_counts: SeverityCounts { critical: (c.critical + 1) as u32, ..c },
            findings: (r.findings + 1) as u32,
            ..with_entry(r, severity, message)
        },
    }
}

impl Report {
    /// Records a note: an info line, a warning or a critical finding.
    pub fn record(&mut self, note: &Note)
        requires
            has_room(old(self)@, note.severity),
        ensures
            final(self)@ == recorded(old(self)@, note.severity, note.message@),
            counts_agree(old(self)@) ==> counts_agree(final(self)@),
    {
        match note.severity {
            Severity::Info => self.log(note.message.as_str()),
            Severity::Warning => self.warn(note.message.as_str()),
            Severity::Critical => self.critical(note.message.as_str()),
        }
    }
}
// ---------------------------------------------------------------------------
// Laws over sequences of calls and over the rendered report
// ---------------------------------------------------------------------------

/// Every entry has exactly one of the three severities.
proof fn lemma_counts_partition(es: Seq<EntryView>)
    ensures
        count_severity(es, Severity::Info) + count_severity(es, Severity::Warning) + count_severity(
            es,
            Severity::Critical,
        ) == es.len(),
    decreases es.len(),
{
    if es.len() > 0 {
        lemma_counts_partition(es.drop_last());
    }
}

/// When the counters agree with the entries, the three counts add up to the
/// number of entries.
pub proof fn lemma_counts_total(r: ReportView)
    requires
        counts_agree(r),
    ensures
        r.severity_counts.info + r.severity_counts.warning + r.severity_counts.critical == r.entries.len(),
{
    lemma_counts_partition(r.entries);
}

/// A call that writes into a report.
pub enum ReportCall {
    Section(Seq<char>),
    Log(Seq<char>),
    Warn(Seq<char>),
    Flag(Seq<char>),
    Critical(Seq<char>),
}

/// The report after one call, as the contract of that method states it.
pub open spec fn after_call(r: ReportView, c: ReportCall) -> ReportView {
    match c {
        ReportCall::Section(t) => ReportView { sections: r.sections.push(t), current_section: t, ..r },
        ReportCall::Log(m) => recorded(r, Severity::Info, m),
        ReportCall::Warn(m) => recorded(r, Severity::Warning, m),
        ReportCall::Flag(m) => recorded(r, Severity::Warning, m),
        ReportCall::Critical(m) => recorded(r, Severity::Critical, m),
    }
}

/// The report after the calls `cs`, in order.
pub open spec fn after_calls(r: ReportView, cs: Seq<ReportCall>) -> ReportView
    decreases cs.len(),
{
    if cs.len() == 0 {
        r
    } else {
        after_calls(after_call(r, cs[0]), cs.drop_first())
    }
}

/// The entries the calls `cs` record, in call order, starting under section
/// `cur`: info for `log`, warning for `warn` and `flag`, critical for
/// `critical`, each filed under the title of the latest `section` call
/// before it (or `cur`).
pub open spec fn call_entries(cs: Seq<ReportCall>, cur: Seq<char>) -> Seq<EntryView>
    decreases cs.len(),
{
    if cs.len() == 0 {
        Seq::empty()
    } else {
        let rest = cs.drop_first();
        match cs[0] {
            ReportCall::Section(t) => call_entries(rest, t),
            ReportCall::Log(m) => seq![EntryView { severity: Severity::Info, message: m, section: cur }]
                + call_entries(rest, cur),
            ReportCall::Warn(m) => seq![EntryView { severity: Severity::Warning, message: m, section: cur }]
                + call_entries(rest, cur),
            ReportCall::Flag(m) => seq![EntryView { severity: Severity::Warning, message: m, section: cur }]
                + call_entries(rest, cur),
            ReportCall::Critical(m) => seq![EntryView { severity: Severity::Critical, message: m, section: cur }]
                + call_entries(rest, cur),
        }
    }
}

/// After any sequence of `section`, `log`, `warn`, `flag` and `critical`
/// calls, the entries are those held before followed by one entry per
/// recording call, in call order, each with its severity, its message and
/// the title of the latest section opened before it.
pub proof fn lemma_entries_of_calls(r: ReportView, cs: Seq<ReportCall>)
    ensures
        after_calls(r, cs).entries == r.entries + call_entries(cs, r.current_section),
    decreases cs.len(),
{
    if cs.len() == 0 {
        assert(r.entries + Seq::<EntryView>::empty() =~= r.entries);
    } else {
        let r2 = after_call(r, cs[0]);
        let rest = cs.drop_first();
        lemma_entries_of_calls(r2, rest);
        match cs[0] {
            ReportCall::Section(t) => {},
            ReportCall::Log(m) => {
                let e = EntryView { severity: Severity::Info, message: m, section: r.current_section };
                assert(r.entries.push(e) + call_entries(rest, r.current_section) =~= r.entries + (seq![e]
                    + call_entries(rest, r.current_section)));
            },
            ReportCall::Warn(m) => {
                let e = EntryView { severity: Severity::Warning, message: m, section: r.current_section };
                assert(r.entries.push(e) + call_entries(rest, r.current_section) =~= r.entries + (seq![e]
                    + call_entries(rest, r.current_section)));
            },
            ReportCall::Flag(m) => {
                let e = EntryView { severity: Severity::Warning, message: m, section: r.current_section };
                assert(r.entries.push(e) + call_entries(rest, r.current_section) =~= r.entries + (seq![e]
                    + call_entries(rest, r.current_section)));
            },
            ReportCall::Critical(m) => {
                let e = EntryView { severity: Severity::Critical, message: m, section: r.current_section };
                assert(r.entries.push(e) + call_entries(rest, r.current_section) =~= r.entries + (seq![e]
                    + call_entries(rest, r.current_section)));
            },
        }
    }
}

/// How many of the lines `ls` equal `x`.
pub open spec fn occurrences(ls: Seq<Seq<char>>, x: Seq<char>) -> nat
    decreases ls.len(),
{
    if ls.len() == 0 {
        0
    } else {
        occurrences(ls.drop_last(), x) + (if ls.last() == x { 1nat } else { 0nat })
    }
}

proof fn lemma_occurrences_concat(a: Seq<Seq<char>>, b: Seq<Seq<char>>, x: Seq<char>)
    ensures
        occurrences(a + b, x) == occurrences(a, x) + occurrences(b, x),
    decreases b.len(),
{
    if b.len() == 0 {
        assert(a + b =~= a);
    } else {
        lemma_occurrences_concat(a, b.drop_last(), x);
        assert((a + b).drop_last() =~= a + b.drop_last());
    }
}

proof fn lemma_heading_shape(t: Seq<char>)
    ensures
        section_heading(t).len() == t.len() + 6,
        section_heading(t)[0] == '=',
        forall|i: int| 0 <= i < t.len() ==> section_heading(t)[3 + i] == t[i],
{
    reveal_strlit("== ");
    reveal_strlit(" ==");
    let h = section_heading(t);
    assert(h == "== "@ + t + " =="@);
    assert(h[0] == "== "@[0]);
}

/// Two section headings are equal only for equal titles.
proof fn lemma_heading_injective(a: Seq<char>, b: Seq<char>)
    requires
        section_heading(a) == section_heading(b),
    ensures
        a == b,
{
    lemma_heading_shape(a);
    lemma_heading_shape(b);
    assert(a.len() == b.len());
    assert forall|i: int| 0 <= i < a.len() implies a[i] == b[i] by {
        assert(section_heading(a)[3 + i] == a[i]);
        assert(section_heading(b)[3 + i] == b[i]);
    }
    assert(a =~= b);
}

/// No entry line is the heading of `t` when no message is.
proof fn lemma_no_heading_in_entries(es: Seq<EntryView>, keep: spec_fn(EntryView) -> bool, t: Seq<char>)
    requires
        forall|i: int| 0 <= i < es.len() ==> (#[trigger] es[i]).message != section_heading(t),
    ensures
        occurrences(rendered_where(es, keep), section_heading(t)) == 0,
    decreases es.len(),
{
    reveal_strlit("== ");
    reveal_strlit("[!] ");
    reveal_strlit("[CRIT] ");
    if es.len() > 0 {
        let d = es.drop_last();
        assert forall|i: int| 0 <= i < d.len() implies (#[trigger] d[i]).message != section_heading(t) by {
            assert(d[i] == es[i]);
        }
        lemma_no_heading_in_entries(d, keep, t);
        let e = es.last();
        assert(es[es.len() - 1] == e);
        let l = rendered_line(e.severity, e.message);
        if keep(e) {
            assert(rendered_where(es, keep).last() == l);
            assert(rendered_where(es, keep).drop_last() == rendered_where(d, keep));
            assert(section_heading(t)[0] == '=');
            match e.severity {
                Severity::Info => {},
                Severity::Warning => { assert(l[0] == '['); },
                Severity::Critical => { assert(l[0] == '['); },
            }
        }
    }
}

/// Within the section blocks, the heading of `t` appears once if `t` is
/// among the first `n` titles, else not at all.
proof fn lemma_heading_in_blocks(s: Seq<Seq<char>>, es: Seq<EntryView>, n: int, t: Seq<char>)
    requires
        0 <= n <= s.len(),
        forall|i: int| 0 <= i < es.len() ==> (#[trigger] es[i]).message != section_heading(t),
    ensures
        occurrences(section_blocks(s, es, n), section_heading(t)) == (if s.take(n).contains(t) { 1nat } else { 0nat }),
    decreases n,
{
    let h = section_heading(t);
    if n == 0 {
        assert(s.take(0).len() == 0);
    } else {
        lemma_heading_in_blocks(s, es, n - 1, t);
        let x = s[n - 1];
        assert(s.take(n) =~= s.take(n - 1).push(x));
        let prev = section_blocks(s, es, n - 1);
        if s.take(n - 1).contains(x) {
            assert(section_blocks(s, es, n) =~= prev);
            if x == t {
                assert(s.take(n).contains(t) == s.take(n - 1).contains(t));
            } else {
                assert(s.take(n).contains(t) == s.take(n - 1).contains(t)) by {
                    if s.take(n).contains(t) {
                        let k = choose|k: int| 0 <= k < s.take(n).len() && #[trigger] s.take(n)[k] == t;
                        assert(k < n - 1);
                        assert(s.take(n - 1)[k] == t);
                    }
                }
            }
        } else {
            let blk = section_block(es, x);
            let items = rendered_where(es, |e: EntryView| in_section(e, x));
            assert(blk == seq![Seq::<char>::empty(), section_heading(x)] + items);
            lemma_occurrences_concat(prev, blk, h);
            lemma_occurrences_concat(seq![Seq::<char>::empty(), section_heading(x)], items, h);
            lemma_no_heading_in_entries(es, |e: EntryView| in_section(e, x), t);
            lemma_heading_shape(t);
            let two = seq![Seq::<char>::empty(), section_heading(x)];
            let one = seq![Seq::<char>::empty()];
            assert(two.drop_last() =~= one);
            assert(two.last() == section_heading(x));
            assert(one.drop_last() =~= Seq::<Seq<char>>::empty());
            assert(one.last() == Seq::<char>::empty());
            assert(Seq::<char>::empty() != h) by {
                assert(h.len() >= 6);
            }
            assert(occurrences(Seq::<Seq<char>>::empty(), h) == 0);
            assert(occurrences(one, h) == 0);
            if section_heading(x) == h {
                lemma_heading_injective(x, t);
            }
            assert(occurrences(two, h) == (if x == t { 1nat } else { 0nat }));
            assert(section_blocks(s, es, n) == prev + blk);
            if x == t {
                assert(!s.take(n - 1).contains(t));
                assert(s.take(n)[n - 1] == t);
            } else {
                assert(s.take(n).contains(t) == s.take(n - 1).contains(t)) by {
                    if s.take(n).contains(t) {
                        let k = choose|k: int| 0 <= k < s.take(n).len() && #[trigger] s.take(n)[k] == t;
                        assert(k < n - 1);
                        assert(s.take(n - 1)[k] == t);
                    }
                    if s.take(n - 1).contains(t) {
                        let k = choose|k: int| 0 <= k < s.take(n - 1).len() && #[trigger] s.take(n - 1)[k] == t;
                        assert(s.take(n)[k] == t);
                    }
                }
            }
        }
    }
}

/// The heading of an opened section appears exactly once in the rendered
/// report, however often the section was opened, as long as no recorded
/// message reads like that heading.
pub proof fn lemma_section_heading_once(r: ReportView, t: Seq<char>)
    requires
        r.sections.contains(t),
        forall|i: int| 0 <= i < r.entries.len() ==> (#[trigger] r.entries[i]).message != section_heading(t),
    ensures
        occurrences(rendered_lines(r), section_heading(t)) == 1,
{
    let h = section_heading(t);
    reveal_strlit("scan time: ");
    reveal_strlit("== ");
    let head = seq![header_line(r)];
    let pre = rendered_where(r.entries, |e: EntryView| in_preamble(e));
    let blocks = section_blocks(r.sections, r.entries, r.sections.len() as int);
    let orph = rendered_where(r.entries, |e: EntryView| is_orphan(e, r.sections));
    assert(rendered_lines(r) == head + pre + blocks + orph);
    lemma_occurrences_concat(head + pre + blocks, orph, h);
    lemma_occurrences_concat(head + pre, blocks, h);
    lemma_occurrences_concat(head, pre, h);
    lemma_no_heading_in_entries(r.entries, |e: EntryView| in_preamble(e), t);
    lemma_no_heading_in_entries(r.entries, |e: EntryView| is_orphan(e, r.sections), t);
    lemma_heading_in_blocks(r.sections, r.entries, r.sections.len() as int, t);
    assert(r.sections.take(r.sections.len() as int) =~= r.sections);
    lemma_heading_shape(t);
    assert(header_line(r)[0] == "scan time: "@[0]);
    assert(header_line(r) != h);
    assert(head.drop_last() =~= Seq::<Seq<char>>::empty());
    assert(head.last() == header_line(r));
    assert(occurrences(Seq::<Seq<char>>::empty(), h) == 0);
    assert(occurrences(head, h) == 0);
}
proof fn lemma_count_push(es: Seq<EntryView>, e: EntryView, s: Severity)
    ensures
        count_severity(es.push(e), s) == count_severity(es, s) + (if e.severity == s { 1nat } else { 0nat }),
{
    assert(es.push(e).drop_last() =~= es);
}

/// Recording one entry keeps the counters in agreement with the entries,
/// when the counters it raises have room.
pub proof fn lemma_recorded_keeps_counts(r: ReportView, severity: Severity, message: Seq<char>)
    requires
        counts_agree(r),
        has_room(r, severity),
    ensures
        counts_agree(recorded(r, severity, message)),
{
    let e = EntryView { severity, message, section: r.current_section };
    lemma_count_push(r.entries, e, Severity::Info);
    lemma_count_push(r.entries, e, Severity::Warning);
    lemma_count_push(r.entries, e, Severity::Critical);
}

/// The number of entries of `r` is below the counter limit, so each
/// counter has room.
proof fn lemma_room_from_entries(r: ReportView, severity: Severity)
    requires
        counts_agree(r),
        r.entries.len() < u32::MAX,
    ensures
        has_room(r, severity),
{
    lemma_counts_total(r);
}

/// The number of `log`, `warn`, `flag` and `critical` calls in `cs`.
pub open spec fn recording_calls(cs: Seq<ReportCall>) -> nat
    decreases cs.len(),
{
    if cs.len() == 0 {
        0
    } else {
        recording_calls(cs.drop_first()) + (if cs[0] is Section { 0nat } else { 1nat })
    }
}

/// From a report whose counters agree with its entries (a fresh one does),
/// any sequence of `section`, `log`, `warn`, `flag` and `critical` calls
/// that keeps the number of entries below the counter limit leaves the
/// counters in agreement: one count per severity, findings the warnings
/// plus the critical entries, and all counts adding up to the entries.
pub proof fn lemma_counts_of_calls(r: ReportView, cs: Seq<ReportCall>)
    requires
        counts_agree(r),
        r.entries.len() + recording_calls(cs) < u32::MAX,
    ensures
        counts_agree(after_calls(r, cs)),
        after_calls(r, cs).entries.len() == r.entries.len() + recording_calls(cs),
        after_calls(r, cs).severity_counts.info + after_calls(r, cs).severity_counts.warning
            + after_calls(r, cs).severity_counts.critical == after_calls(r, cs).entries.len(),
    decreases cs.len(),
{
    if cs.len() == 0 {
        lemma_counts_total(r);
    } else {
        let r2 = after_call(r, cs[0]);
        match cs[0] {
            ReportCall::Section(t) => {},
            ReportCall::Log(m) => {
                lemma_room_from_entries(r, Severity::Info);
                lemma_recorded_keeps_counts(r, Severity::Info, m);
            },
            ReportCall::Warn(m) => {
                lemma_room_from_entries(r, Severity::Warning);
                lemma_recorded_keeps_counts(r, Severity::Warning, m);
            },
            ReportCall::Flag(m) => {
                lemma_room_from_entries(r, Severity::Warning);
                lemma_recorded_keeps_counts(r, Severity::Warning, m);
            },
            ReportCall::Critical(m) => {
                lemma_room_from_entries(r, Severity::Critical);
                lemma_recorded_keeps_counts(r, Severity::Critical, m);
            },
        }
        lemma_counts_of_calls(r2, cs.drop_first());
    }
}

/// `flag` is `warn`: both calls take a report to the same report.
pub proof fn lemma_flag_is_warn(r: ReportView, m: Seq<char>)
    ensures
        after_call(r, ReportCall::Flag(m)) == after_call(r, ReportCall::Warn(m)),
{
}
proof fn lemma_entries_of_filter(es: Seq<EntryView>, s: Severity)
    ensures
        entries_of(es, s) == es.filter(|e: EntryView| e.severity == s),
        count_severity(es, s) == es.filter(|e: EntryView| e.severity == s).len(),
    decreases es.len(),
{
    reveal(Seq::filter);
    if es.len() > 0 {
        lemma_entries_of_filter(es.drop_last(), s);
    }
}

/// Ordering by urgency lists the critical entries, then the warnings, then
/// the info lines, each group in the order the entries were recorded (a
/// stable sort); the count of each severity is the number of its entries.
pub proof fn lemma_by_urgency_stable(es: Seq<EntryView>)
    ensures
        by_urgency(es) == es.filter(|e: EntryView| e.severity == Severity::Critical) + es.filter(
            |e: EntryView| e.severity == Severity::Warning,
        ) + es.filter(|e: EntryView| e.severity == Severity::Info),
        count_severity(es, Severity::Info) == es.filter(|e: EntryView| e.severity == Severity::Info).len(),
        count_severity(es, Severity::Warning) == es.filter(|e: EntryView| e.severity == Severity::Warning).len(),
        count_severity(es, Severity::Critical) == es.filter(|e: EntryView| e.severity == Severity::Critical).len(),
{
    lemma_entries_of_filter(es, Severity::Critical);
    lemma_entries_of_filter(es, Severity::Warning);
    lemma_entries_of_filter(es, Severity::Info);
}
} // verus!
