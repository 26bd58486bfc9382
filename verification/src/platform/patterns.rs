//! Case-insensitive substring matching of detection patterns.
use vstd::prelude::*;
use crate::report::strings_view;
use crate::text::{chars_of, chars_contain, has_substring, lower_text, to_lowercase};

verus! {

/// Some pattern of `patterns` occurs in `text`, both lowercased.
pub open spec fn matches_any(text: Seq<char>, patterns: Seq<Seq<char>>) -> bool {
    exists|i: int| 0 <= i < patterns.len() && has_substring(lower_text(text), lower_text(#[trigger] patterns[i]))
}

/// Whether some pattern occurs in `text`, ignoring case.
pub fn matches_any_pattern(text: &str, patterns: &[String]) -> (r: bool)
    ensures
        r == matches_any(text@, strings_view(patterns@)),
{
    let lower = to_lowercase(text);
    let lv = chars_of(lower.as_str());
    let ghost ps = strings_view(patterns@);
    let mut i: usize = 0;
    while i < patterns.len()
        invariant
            ps == strings_view(patterns@),
            lv@ == lower_text(text@),
            i <= patterns@.len(),
            forall|k: int| 0 <= k < i ==> !has_substring(lower_text(text@), lower_text(#[trigger] ps[k])),
        decreases patterns@.len() - i,
    {
        let pat = to_lowercase(patterns[i].as_str());
        let pv = chars_of(pat.as_str());
        assert(ps[i as int] == patterns@[i as int]@);
        if chars_contain(&lv, &pv) {
            return true;
        }
        i += 1;
    }
    false
}

} // verus!
