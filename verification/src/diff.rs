//! Comparison of two scan reports: which findings are new since the
//! previous scan and which are gone.
use vstd::prelude::*;
use crate::report::{
    count_severity, entries_view, rendered_line, Entry, EntryView, Report, Severity,
};
use crate::text::{decimal, push_char, push_decimal};

verus! {

/// The outcome of comparing a previous report with the current one.
#[derive(Clone, Debug)]
pub struct DiffResult {
    pub previous_findings: u32,
    pub current_findings: u32,
    pub new_findings: Vec<Entry>,
    pub resolved_findings: Vec<Entry>,
}

impl Default for DiffResult {
    fn default() -> (r: DiffResult)
        ensures
            r.previous_findings == 0,
            r.current_findings == 0,
            r.new_findings@.len() == 0,
            r.resolved_findings@.len() == 0,
    {
        DiffResult {
            previous_findings: 0,
            current_findings: 0,
            new_findings: Vec::new(),
            resolved_findings: Vec::new(),
        }
    }
}

/// A warning or critical entry (info lines are never findings).
pub open spec fn is_finding(e: EntryView) -> bool {
    e.severity != Severity::Info
}

/// Two entries count as the same finding when severity and message agree
/// (the section does not matter).
pub open spec fn same_finding(a: EntryView, b: EntryView) -> bool {
    a.severity == b.severity && a.message == b.message
}

/// `es` holds a finding that is the same as `e`.
pub open spec fn has_same_finding(es: Seq<EntryView>, e: EntryView) -> bool {
    exists|i: int| 0 <= i < es.len() && is_finding(es[i]) && same_finding(#[trigger] es[i], e)
}

/// The findings of `es`, in order, that `other` does not hold.
pub open spec fn findings_not_in(es: Seq<EntryView>, other: Seq<EntryView>) -> Seq<EntryView>
    decreases es.len(),
{
    if es.len() == 0 {
        Seq::empty()
    } else {
        let rest = findings_not_in(es.drop_last(), other);
        if is_finding(es.last()) && !has_same_finding(other, es.last()) {
            rest.push(es.last())
        } else {
            rest
        }
    }
}

/// Whether `es` holds a finding that is the same as `e`.
fn holds_same_finding(es: &[Entry], e: &Entry) -> (b: bool)
    ensures
        b == has_same_finding(entries_view(es@), e@),
{
    let ghost v = entries_view(es@);
    let mut i: usize = 0;
    while i < es.len()
        invariant
            v == entries_view(es@),
            i <= es@.len(),
            forall|k: int| 0 <= k < i ==> !(is_finding(v[k]) && same_finding(v[k], e@)),
        decreases es@.len() - i,
    {
        let x = &es[i];
        assert(v[i as int] == x@);
        if x.severity != Severity::Info && x.severity == e.severity && x.message == e.message {
            return true;
        }
        i += 1;
    }
    false
}

/// Copies of the findings of `es` that `other` does not hold.
fn copy_findings_not_in(es: &[Entry], other: &[Entry]) -> (r: Vec<Entry>)
    ensures
        entries_view(r@) == findings_not_in(entries_view(es@), entries_view(other@)),
{
    let ghost v = entries_view(es@);
    let mut out: Vec<Entry> = Vec::new();
    let mut i: usize = 0;
    while i < es.len()
        invariant
            v == entries_view(es@),
            i <= es@.len(),
            entries_view(out@) == findings_not_in(v.take(i as int), entries_view(other@)),
        decreases es@.len() - i,
    {
        let e = &es[i];
        proof {
            assert(v.take(i + 1).drop_last() =~= v.take(i as int));
            assert(v.take(i + 1).last() == e@);
        }
        if e.severity != Severity::Info && !holds_same_finding(other, e) {
            let ghost before = out@;
            out.push(e.duplicate());
            assert(entries_view(out@) =~= entries_view(before).push(e@));
        }
        i += 1;
    }
    assert(v.take(es@.len() as int) =~= v);
    out
}

/// Compares two reports: the new findings are the current findings (in
/// order) that the previous report does not hold, the resolved ones the
/// previous findings that the current report does not hold; info lines are
/// ignored.
pub fn compute(previous: &Report, current: &Report) -> (r: DiffResult)
    ensures
        r.previous_findings == previous@.findings,
        r.current_findings == current@.findings,
        entries_view(r.new_findings@) == findings_not_in(current@.entries, previous@.entries),
        entries_view(r.resolved_findings@) == findings_not_in(previous@.entries, current@.entries),
{
    let new_findings = copy_findings_not_in(current.entries(), previous.entries());
    let resolved_findings = copy_findings_not_in(previous.entries(), current.entries());
    DiffResult {
        previous_findings: previous.findings(),
        current_findings: current.findings(),
        new_findings,
        resolved_findings,
    }
}

/// Each entry of `es` as a rendered line followed by `\n`.
pub open spec fn listed(es: Seq<EntryView>) -> Seq<char>
    decreases es.len(),
{
    if es.len() == 0 {
        Seq::empty()
    } else {
        listed(es.drop_last()) + rendered_line(es.last().severity, es.last().message) + seq!['\n']
    }
}

/// The counting part of the summary.
pub open spec fn diff_head(
    previous: u32,
    current: u32,
    new: Seq<EntryView>,
    resolved: Seq<EntryView>,
) -> Seq<char> {
    "== Scan diff =="@ + seq!['\n']
        + "previous findings: "@ + decimal(previous as nat) + seq!['\n']
        + "current findings:  "@ + decimal(current as nat) + seq!['\n']
        + "new findings:      "@ + decimal(new.len()) + " ("@
        + decimal(count_severity(new, Severity::Critical)) + " critical, "@
        + decimal(count_severity(new, Severity::Warning)) + " warning)"@ + seq!['\n']
        + "resolved findings: "@ + decimal(resolved.len()) + seq!['\n']
        + seq!['\n']
}

/// The listing of new findings, or a note that there are none.
pub open spec fn diff_new_part(new: Seq<EntryView>) -> Seq<char> {
    if new.len() == 0 {
        "No new findings since last scan.\n"@
    } else {
        "== New findings (since last scan) =="@ + seq!['\n'] + listed(new)
    }
}

/// The listing of resolved findings, if any.
pub open spec fn diff_resolved_part(resolved: Seq<EntryView>) -> Seq<char> {
    if resolved.len() == 0 {
        Seq::<char>::empty()
    } else {
        "\n== Resolved findings (no longer present) =="@ + seq!['\n'] + listed(resolved)
    }
}

/// The plain-text summary of a comparison.
pub open spec fn diff_text(
    previous: u32,
    current: u32,
    new: Seq<EntryView>,
    resolved: Seq<EntryView>,
) -> Seq<char> {
    diff_head(previous, current, new, resolved) + diff_new_part(new) + diff_resolved_part(resolved)
}

proof fn lemma_count_bounded(es: Seq<EntryView>, s: Severity)
    ensures
        count_severity(es, s) <= es.len(),
    decreases es.len(),
{
    if es.len() > 0 {
        lemma_count_bounded(es.drop_last(), s);
    }
}

/// Appends the listing of `es`.
fn push_listed(out: &mut String, es: &Vec<Entry>)
    ensures
        final(out)@ == old(out)@ + listed(entries_view(es@)),
{
    let ghost v = entries_view(es@);
    let mut i: usize = 0;
    while i < es.len()
        invariant
            v == entries_view(es@),
            i <= es@.len(),
            out@ == old(out)@ + listed(v.take(i as int)),
        decreases es@.len() - i,
    {
        let line = es[i].render();
        out.append(line.as_str());
        push_char(out, '\n');
        proof {
            assert(v.take(i + 1).drop_last() =~= v.take(i as int));
            assert(v.take(i + 1).last() == es@[i as int]@);
            assert(out@ =~= old(out)@ + listed(v.take(i + 1)));
        }
        i += 1;
    }
    assert(v.take(es@.len() as int) =~= v);
}

/// Number of entries of severity `s` in `es`.
fn count_of(es: &Vec<Entry>, s: Severity) -> (r: usize)
    ensures
        r == count_severity(entries_view(es@), s),
{
    let ghost v = entries_view(es@);
    let mut n: usize = 0;
    let mut i: usize = 0;
    while i < es.len()
        invariant
            v == entries_view(es@),
            i <= es@.len(),
            n == count_severity(v.take(i as int), s),
        decreases es@.len() - i,
    {
        proof {
            assert(v.take(i + 1).drop_last() =~= v.take(i as int));
            assert(v.take(i + 1).last() == es@[i as int]@);
            lemma_count_bounded(v.take(i as int), s);
        }
        if es[i].severity == s {
            n += 1;
        }
        i += 1;
    }
    assert(v.take(es@.len() as int) =~= v);
    n
}

impl DiffResult {
    /// Number of new critical findings.
    pub fn new_critical(&self) -> (r: usize)
        ensures
            r == count_severity(entries_view(self.new_findings@), Severity::Critical),
    {
        count_of(&self.new_findings, Severity::Critical)
    }

    /// Number of new warning findings.
    pub fn new_warning(&self) -> (r: usize)
        ensures
            r == count_severity(entries_view(self.new_findings@), Severity::Warning),
    {
        count_of(&self.new_findings, Severity::Warning)
    }

    fn push_head(&self, out: &mut String)
        ensures
            final(out)@ == old(out)@ + diff_head(
                self.previous_findings,
                self.current_findings,
                entries_view(self.new_findings@),
                entries_view(self.resolved_findings@),
            ),
    {
        let ghost start = out@;
        out.append("== Scan diff ==");
        push_char(out, '\n');
        out.append("previous findings: ");
        push_decimal(out, self.previous_findings as u64);
        push_char(out, '\n');
        out.append("current findings:  ");
        push_decimal(out, self.current_findings as u64);
        push_char(out, '\n');
        out.append("new findings:      ");
        push_decimal(out, self.new_findings.len() as u64);
        out.append(" (");
        push_decimal(out, self.new_critical() as u64);
        out.append(" critical, ");
        push_decimal(out, self.new_warning() as u64);
        out.append(" warning)");
        push_char(out, '\n');
        out.append("resolved findings: ");
        push_decimal(out, self.resolved_findings.len() as u64);
        push_char(out, '\n');
        push_char(out, '\n');
        assert(out@ =~= start + diff_head(
            self.previous_findings,
            self.current_findings,
            entries_view(self.new_findings@),
            entries_view(self.resolved_findings@),
        ));
    }

    /// The plain-text summary (see [`diff_text`]).
    pub fn to_text(&self) -> (r: String)
        ensures
            r@ == diff_text(
                self.previous_findings,
                self.current_findings,
                entries_view(self.new_findings@),
                entries_view(self.resolved_findings@),
            ),
    {
        let mut out = String::new();
        self.push_head(&mut out);
        let ghost head = out@;
        if self.new_findings.len() == 0 {
            out.append("No new findings since last scan.\n");
        } else {
            out.append("== New findings (since last scan) ==");
            push_char(&mut out, '\n');
            push_listed(&mut out, &self.new_findings);
        }
        assert(out@ =~= head + diff_new_part(entries_view(self.new_findings@)));
        let ghost mid = out@;
        if self.resolved_findings.len() != 0 {
            out.append("\n== Resolved findings (no longer present) ==");
            push_char(&mut out, '\n');
            push_listed(&mut out, &self.resolved_findings);
        }
        assert(out@ =~= mid + diff_resolved_part(entries_view(self.resolved_findings@)));
        out
    }
}

// ---------------------------------------------------------------------------
// Laws of comparison
// ---------------------------------------------------------------------------

/// What the new (or resolved) findings are: exactly the findings of `es`
/// that `other` does not hold, in the order of `es`, and never info lines.
pub proof fn lemma_findings_not_in_exact(es: Seq<EntryView>, other: Seq<EntryView>)
    ensures
        forall|i: int| 0 <= i < findings_not_in(es, other).len() ==> {
            let e = #[trigger] findings_not_in(es, other)[i];
            is_finding(e) && !has_same_finding(other, e) && es.contains(e)
        },
        forall|j: int| 0 <= j < es.len() && is_finding(#[trigger] es[j]) && !has_same_finding(other, es[j])
            ==> findings_not_in(es, other).contains(es[j]),
    decreases es.len(),
{
    if es.len() > 0 {
        let d = es.drop_last();
        lemma_findings_not_in_exact(d, other);
        let r = findings_not_in(es, other);
        let rd = findings_not_in(d, other);
        assert forall|i: int| 0 <= i < r.len() implies {
            let e = #[trigger] r[i];
            is_finding(e) && !has_same_finding(other, e) && es.contains(e)
        } by {
            if i < rd.len() {
                assert(r[i] == rd[i]);
                let k = choose|k: int| 0 <= k < d.len() && d[k] == rd[i];
                assert(es[k] == d[k]);
            } else {
                assert(es[es.len() - 1] == es.last());
            }
        }
        assert forall|j: int| 0 <= j < es.len() && is_finding(#[trigger] es[j]) && !has_same_finding(other, es[j])
            implies r.contains(es[j]) by {
            if j < d.len() {
                assert(d[j] == es[j]);
                let k = choose|k: int| 0 <= k < rd.len() && rd[k] == d[j];
                assert(r[k] == rd[k]);
            } else {
                assert(es[j] == es.last());
                assert(r[r.len() - 1] == es.last());
            }
        }
    }
}

/// A warning or critical entry of `es` is listed by the comparison exactly
/// when no warning or critical entry of `other` has the same severity and
/// the same whole message; info entries are never listed, and nothing else
/// is.
pub proof fn lemma_findings_by_severity_and_message(es: Seq<EntryView>, other: Seq<EntryView>)
    ensures
        forall|j: int|
            0 <= j < es.len() && (#[trigger] es[j]).severity != Severity::Info ==> (findings_not_in(
                es,
                other,
            ).contains(es[j]) <==> !(exists|k: int|
                0 <= k < other.len() && other[k].severity != Severity::Info && other[k].severity
                    == es[j].severity && other[k].message == es[j].message)),
        forall|i: int|
            0 <= i < findings_not_in(es, other).len() ==> {
                let e = #[trigger] findings_not_in(es, other)[i];
                &&& e.severity != Severity::Info
                &&& es.contains(e)
                &&& !(exists|k: int|
                    0 <= k < other.len() && other[k].severity != Severity::Info && other[k].severity
                        == e.severity && other[k].message == e.message)
            },
{
    lemma_findings_not_in_exact(es, other);
    let r = findings_not_in(es, other);
    assert forall|j: int|
        0 <= j < es.len() && (#[trigger] es[j]).severity != Severity::Info implies (r.contains(es[j])
            <==> !(exists|k: int|
            0 <= k < other.len() && other[k].severity != Severity::Info && other[k].severity == es[j].severity
                && other[k].message == es[j].message)) by {
        if r.contains(es[j]) {
            let i = choose|i: int| 0 <= i < r.len() && r[i] == es[j];
            assert(!has_same_finding(other, r[i]));
            if exists|k: int|
                0 <= k < other.len() && other[k].severity != Severity::Info && other[k].severity
                    == es[j].severity && other[k].message == es[j].message {
                let k = choose|k: int|
                    0 <= k < other.len() && other[k].severity != Severity::Info && other[k].severity
                        == es[j].severity && other[k].message == es[j].message;
                assert(is_finding(other[k]) && same_finding(other[k], es[j]));
            }
        } else {
            if !has_same_finding(other, es[j]) {
                assert(is_finding(es[j]));
            }
            let k = choose|k: int| 0 <= k < other.len() && is_finding(other[k]) && same_finding(#[trigger] other[k], es[j]);
            assert(other[k].severity != Severity::Info && other[k].severity == es[j].severity
                && other[k].message == es[j].message);
        }
    }
    assert forall|i: int| 0 <= i < r.len() implies {
        let e = #[trigger] r[i];
        &&& e.severity != Severity::Info
        &&& es.contains(e)
        &&& !(exists|k: int|
            0 <= k < other.len() && other[k].severity != Severity::Info && other[k].severity == e.severity
                && other[k].message == e.message)
    } by {
        let e = r[i];
        assert(is_finding(e) && !has_same_finding(other, e) && es.contains(e));
        if exists|k: int|
            0 <= k < other.len() && other[k].severity != Severity::Info && other[k].severity == e.severity
                && other[k].message == e.message {
            let k = choose|k: int|
                0 <= k < other.len() && other[k].severity != Severity::Info && other[k].severity == e.severity
                    && other[k].message == e.message;
            assert(is_finding(other[k]) && same_finding(other[k], e));
        }
    }
}

/// A report compared with itself has nothing new and nothing resolved.
pub proof fn lemma_no_change_against_itself(es: Seq<EntryView>)
    ensures
        findings_not_in(es, es).len() == 0,
{
    lemma_findings_not_in_exact(es, es);
    let r = findings_not_in(es, es);
    if r.len() > 0 {
        let e = r[0];
        let k = choose|k: int| 0 <= k < es.len() && es[k] == e;
        assert(is_finding(es[k]) && same_finding(es[k], e));
    }
}

/// The exit status of a comparison run: 2 when new findings appeared since
/// the baseline, 0 otherwise.
pub open spec fn diff_exit_status(new_count: nat) -> i32 {
    if new_count > 0 { 2 } else { 0 }
}

impl DiffResult {
    /// The exit status for this comparison (see [`diff_exit_status`]).
    pub fn exit_code(&self) -> (r: i32)
        ensures
            r == diff_exit_status(self.new_findings@.len()),
    {
        if self.new_findings.len() == 0 { 0 } else { 2 }
    }
}
} // verus!
