//! The recently-modified-files pass: what it records. Walking directories
//! and reading timestamps happens in the program around the library.
use vstd::prelude::*;
use crate::report::{counts_agree, has_room, recorded, Report, ReportView, Severity};
use crate::text::push_decimal;
use crate::text::decimal;

verus! {

/// Maximum recursion depth when walking scan directories; deeper trees are
/// not entered.
pub const MAX_SCAN_DEPTH: usize = 4;

/// Whether a directory at `depth` below a scan root is read.
pub fn depth_allowed(depth: usize) -> (r: bool)
    ensures
        r == (depth <= MAX_SCAN_DEPTH),
{
    depth <= MAX_SCAN_DEPTH
}

/// `Recently modified files (last <days> days)`.
pub open spec fn section_title(days: u64) -> Seq<char> {
    "Recently modified files (last "@ + decimal(days as nat) + " days)"@
}

/// `Recently modified: <path>`.
pub open spec fn finding_line(path: Seq<char>) -> Seq<char> {
    "Recently modified: "@ + path
}

/// Opens the section of the pass for a look-back window of `days` days.
pub fn begin(report: &mut Report, days: u64)
    ensures
        final(report)@ == (ReportView {
            sections: old(report)@.sections.push(section_title(days)),
            current_section: section_title(days),
            ..old(report)@
        }),
{
    let mut title = String::new();
    title.append("Recently modified files (last ");
    push_decimal(&mut title, days);
    title.append(" days)");
    report.section(title.as_str());
}

/// Records a recently modified file (an info line); nothing else of the
/// report changes but the info count.
pub fn record(report: &mut Report, path: &str)
    requires
        has_room(old(report)@, Severity::Info),
    ensures
        final(report)@ == recorded(old(report)@, Severity::Info, finding_line(path@)),
        counts_agree(old(report)@) ==> counts_agree(final(report)@),
{
    let mut line = String::new();
    line.append("Recently modified: ");
    line.append(path);
    report.log(line.as_str());
}

} // verus!
