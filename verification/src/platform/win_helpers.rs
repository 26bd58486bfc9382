//! Decoding and parsing of the output of Windows tools.
//!
//! `wmic` emits UTF-16LE (with a byte-order mark) on most builds, and other
//! tools emit UTF-16 without a mark or a legacy code page, so raw output is
//! decoded by its marks and its share of NUL bytes. CSV output is split with
//! quotes respected (RFC-4180 style), so quoted commas never shift columns.
use vstd::prelude::*;
use vstd::utf8::{decode_utf8, valid_utf8};
use crate::report::strings_view;
use crate::text::{
    lemma_filter_map_empty, lemma_filter_map_step,
    chars_of, lower_text, string_from_chars, to_lowercase, trim, trim_bounds,
    trim_str, lines, lines_of,
};

verus! {

// ---------------------------------------------------------------------------
// Decoding
// ---------------------------------------------------------------------------

/// The text that `String::from_utf8_lossy` makes of `bytes`.
pub uninterp spec fn utf8_lossy(bytes: Seq<u8>) -> Seq<char>;

/// UTF-16 decoding with replacement, as `String::from_utf16_lossy` does it:
/// a unit outside `D800`..`DFFF` is the char of its value; a high surrogate
/// (`D800`..`DBFF`) followed by a low one (`DC00`..`DFFF`) is the char
/// `0x10000 + (high - 0xD800) * 0x400 + (low - 0xDC00)`; any other surrogate
/// unit becomes U+FFFD.
pub open spec fn utf16_lossy(units: Seq<u16>) -> Seq<char>
    decreases units.len(),
{
    if units.len() == 0 {
        Seq::empty()
    } else {
        let u = units[0];
        if u < 0xD800 || u >= 0xE000 {
            seq![u as char] + utf16_lossy(units.drop_first())
        } else if u < 0xDC00 && units.len() >= 2 && 0xDC00 <= units[1] < 0xE000 {
            seq![(0x10000 + (u - 0xD800) * 0x400 + (units[1] - 0xDC00)) as char] + utf16_lossy(
                units.subrange(2, units.len() as int),
            )
        } else {
            seq!['\u{FFFD}'] + utf16_lossy(units.drop_first())
        }
    }
}

/// `String::from_utf8_lossy`: decodes UTF-8, replacing invalid sequences by
/// U+FFFD. Stated: valid UTF-8 decodes exactly; otherwise the text is named.
#[verifier::external_body]
fn string_from_utf8_lossy(bytes: &[u8]) -> (s: String)
    ensures
        s@ == utf8_lossy(bytes@),
        valid_utf8(bytes@) ==> s@ == decode_utf8(bytes@),
{
    String::from_utf8_lossy(bytes).into_owned()
}

/// No unit of `us` is a UTF-16 surrogate (`D800`..`DFFF`).
pub open spec fn no_surrogates(us: Seq<u16>) -> bool {
    forall|i: int| 0 <= i < us.len() ==> #[trigger] us[i] < 0xD800u16 || us[i] >= 0xE000u16
}

/// Each unit taken as the char of the same value.
pub open spec fn units_text(us: Seq<u16>) -> Seq<char> {
    us.map_values(|u: u16| u as char)
}

/// `String::from_utf16_lossy`: decodes UTF-16, pairing surrogates and
/// replacing each unpaired surrogate by U+FFFD (see [`utf16_lossy`]).
#[verifier::external_body]
fn string_from_utf16_lossy(units: &[u16]) -> (s: String)
    ensures
        s@ == utf16_lossy(units@),
{
    String::from_utf16_lossy(units)
}

/// Units without surrogates decode one char per unit.
pub proof fn lemma_utf16_without_surrogates(us: Seq<u16>)
    requires
        no_surrogates(us),
    ensures
        utf16_lossy(us) == units_text(us),
    decreases us.len(),
{
    if us.len() > 0 {
        let r = us.drop_first();
        assert forall|i: int| 0 <= i < r.len() implies #[trigger] r[i] < 0xD800u16 || r[i] >= 0xE000u16 by {
            assert(r[i] == us[i + 1]);
        }
        lemma_utf16_without_surrogates(r);
        assert(us[0] < 0xD800u16 || us[0] >= 0xE000u16);
        assert(utf16_lossy(us) =~= units_text(us));
    }
}

/// The UTF-16 units of one char: itself below U+10000, else a surrogate
/// pair.
pub open spec fn utf16_units_of(c: char) -> Seq<u16> {
    let n = c as int;
    if n < 0x10000 {
        seq![n as u16]
    } else {
        let m = n - 0x10000;
        seq![(0xD800 + m / 0x400) as u16, (0xDC00 + m % 0x400) as u16]
    }
}

/// The UTF-16 encoding of `s` (what `str::encode_utf16` yields).
pub open spec fn utf16_encode(s: Seq<char>) -> Seq<u16>
    decreases s.len(),
{
    if s.len() == 0 {
        Seq::empty()
    } else {
        utf16_units_of(s[0]) + utf16_encode(s.drop_first())
    }
}

/// The units of one char decode back to it, whatever follows.
proof fn lemma_utf16_char(c: char, tail: Seq<u16>)
    ensures
        utf16_lossy(utf16_units_of(c) + tail) == seq![c] + utf16_lossy(tail),
{
    let us = utf16_units_of(c) + tail;
    let n = c as int;
    if n < 0x10000 {
        let u = n as u16;
        assert(u as int == n);
        assert(us[0] == u);
        assert(us.drop_first() =~= tail);
        assert((u as char) == c);
    } else {
        let m = n - 0x10000;
        assert(n <= 0x10FFFF);
        vstd::arithmetic::div_mod::lemma_fundamental_div_mod(m, 0x400);
        vstd::arithmetic::div_mod::lemma_mod_bound(m, 0x400);
        let q = m / 0x400;
        let r = m % 0x400;
        assert(0 <= q < 0x400) by (nonlinear_arith)
            requires
                m == 0x400 * q + r,
                0 <= r < 0x400,
                0 <= m < 0x100000,
        ;
        let hi = (0xD800 + q) as u16;
        let lo = (0xDC00 + r) as u16;
        assert(hi as int == 0xD800 + q);
        assert(lo as int == 0xDC00 + r);
        assert(us[0] == hi && us[1] == lo);
        assert(us.subrange(2, us.len() as int) =~= tail);
        let v = 0x10000 + (hi - 0xD800) * 0x400 + (lo - 0xDC00);
        assert(v == n);
        assert((v as char) == c);
    }
}

/// Decoding the UTF-16 encoding of any text gives the text back.
pub proof fn lemma_utf16_round_trip(s: Seq<char>)
    ensures
        utf16_lossy(utf16_encode(s)) == s,
    decreases s.len(),
{
    if s.len() > 0 {
        let rest = s.drop_first();
        lemma_utf16_round_trip(rest);
        lemma_utf16_char(s[0], utf16_encode(rest));
        assert(seq![s[0]] + rest =~= s);
    }
}

/// 16-bit units of `b` read in pairs, little-endian; an odd last byte is
/// dropped.
pub open spec fn le_units(b: Seq<u8>) -> Seq<u16> {
    Seq::new(b.len() / 2, |k: int| (b[2 * k] + 256 * b[2 * k + 1]) as u16)
}

/// 16-bit units of `b` read in pairs, big-endian; an odd last byte is
/// dropped.
pub open spec fn be_units(b: Seq<u8>) -> Seq<u16> {
    Seq::new(b.len() / 2, |k: int| (256 * b[2 * k] + b[2 * k + 1]) as u16)
}

/// Number of zero bytes in `b`.
pub open spec fn zero_count(b: Seq<u8>) -> nat
    decreases b.len(),
{
    if b.len() == 0 {
        0
    } else {
        zero_count(b.drop_last()) + (if b.last() == 0 { 1nat } else { 0nat })
    }
}

/// `b` starts with `FF FE` (UTF-16LE mark).
pub open spec fn has_utf16le_bom(b: Seq<u8>) -> bool {
    b.len() >= 2 && b[0] == 0xFF && b[1] == 0xFE
}

/// `b` starts with `FE FF` (UTF-16BE mark).
pub open spec fn has_utf16be_bom(b: Seq<u8>) -> bool {
    b.len() >= 2 && b[0] == 0xFE && b[1] == 0xFF
}

/// `b` starts with `EF BB BF` (UTF-8 mark).
pub open spec fn has_utf8_bom(b: Seq<u8>) -> bool {
    b.len() >= 3 && b[0] == 0xEF && b[1] == 0xBB && b[2] == 0xBF
}

/// Text without a UTF-16 mark but with more than a quarter NUL bytes is
/// taken for UTF-16LE (valid UTF-8 text never holds a NUL).
pub open spec fn looks_like_utf16le(b: Seq<u8>) -> bool {
    b.len() >= 2 && zero_count(b) > b.len() / 4
}

/// `b` without a leading UTF-8 mark.
pub open spec fn utf8_body(b: Seq<u8>) -> Seq<u8> {
    if has_utf8_bom(b) { b.skip(3) } else { b }
}

/// The units of UTF-16 text without surrogates, as text.
pub open spec fn clean_units(us: Seq<u16>) -> Option<Seq<char>> {
    if no_surrogates(us) { Some(units_text(us)) } else { None }
}

/// The text of output whose decoding needs no replacement: UTF-16 units
/// without surrogates (after a mark, or by the NUL test), or valid UTF-8
/// (after an optional UTF-8 mark); `None` for other output.
pub open spec fn clean_decoding(raw: Seq<u8>) -> Option<Seq<char>> {
    if has_utf16le_bom(raw) {
        clean_units(le_units(raw.skip(2)))
    } else if has_utf16be_bom(raw) {
        clean_units(be_units(raw.skip(2)))
    } else if looks_like_utf16le(utf8_body(raw)) {
        clean_units(le_units(utf8_body(raw)))
    } else if valid_utf8(utf8_body(raw)) {
        Some(decode_utf8(utf8_body(raw)))
    } else {
        None
    }
}

/// How raw tool output is decoded: by its UTF-16 mark, else (after dropping
/// a UTF-8 mark) as UTF-16LE when NUL-heavy, else as lossy UTF-8.
pub open spec fn decoded_output(raw: Seq<u8>) -> Seq<char> {
    if has_utf16le_bom(raw) {
        utf16_lossy(le_units(raw.skip(2)))
    } else if has_utf16be_bom(raw) {
        utf16_lossy(be_units(raw.skip(2)))
    } else {
        let body = if has_utf8_bom(raw) { raw.skip(3) } else { raw };
        if looks_like_utf16le(body) {
            utf16_lossy(le_units(body))
        } else {
            utf8_lossy(body)
        }
    }
}

fn decode_utf16(bytes: &[u8], little_endian: bool) -> (s: String)
    ensures
        s@ == utf16_lossy(if little_endian { le_units(bytes@) } else { be_units(bytes@) }),
        clean_units(if little_endian { le_units(bytes@) } else { be_units(bytes@) }) matches Some(t) ==> s@ == t,
{
    let blen = bytes.len();
    let n = blen / 2;
    let ghost target = if little_endian { le_units(bytes@) } else { be_units(bytes@) };
    let mut units: Vec<u16> = Vec::new();
    let mut k: usize = 0;
    while k < n
        invariant
            blen == bytes@.len(),
            n == blen / 2,
            target == (if little_endian { le_units(bytes@) } else { be_units(bytes@) }),
            k <= n,
            units@ == target.take(k as int),
        decreases n - k,
    {
        let a = bytes[2 * k] as u16;
        let b = bytes[2 * k + 1] as u16;
        let u = if little_endian { a + b * 256 } else { a * 256 + b };
        units.push(u);
        assert(units@ =~= target.take(k + 1));
        k += 1;
    }
    assert(target.take(n as int) =~= target);
    proof {
        if no_surrogates(target) {
            lemma_utf16_without_surrogates(target);
        }
    }
    string_from_utf16_lossy(units.as_slice())
}

fn count_zeros(b: &[u8]) -> (r: usize)
    ensures
        r == zero_count(b@),
{
    let mut n: usize = 0;
    let mut i: usize = 0;
    while i < b.len()
        invariant
            i <= b@.len(),
            n == zero_count(b@.take(i as int)),
            n <= i,
        decreases b@.len() - i,
    {
        assert(b@.take(i + 1).drop_last() =~= b@.take(i as int));
        if b[i] == 0 {
            n += 1;
        }
        i += 1;
    }
    assert(b@.take(b@.len() as int) =~= b@);
    n
}

/// Decodes raw process output into text (see [`decoded_output`]).
pub fn decode_output(raw: &[u8]) -> (s: String)
    ensures
        s@ == decoded_output(raw@),
        clean_decoding(raw@) matches Some(t) ==> s@ == t,
{
    let len = raw.len();
    if len >= 2 && raw[0] == 0xFF && raw[1] == 0xFE {
        let (_, rest) = raw.split_at(2);
        assert(rest@ =~= raw@.skip(2));
        return decode_utf16(rest, true);
    }
    if len >= 2 && raw[0] == 0xFE && raw[1] == 0xFF {
        let (_, rest) = raw.split_at(2);
        assert(rest@ =~= raw@.skip(2));
        return decode_utf16(rest, false);
    }
    let body: &[u8] = if len >= 3 && raw[0] == 0xEF && raw[1] == 0xBB && raw[2] == 0xBF {
        let (_, rest) = raw.split_at(3);
        assert(rest@ =~= raw@.skip(3));
        rest
    } else {
        raw
    };
    let nul_count = count_zeros(body);
    if body.len() >= 2 && nul_count > body.len() / 4 {
        return decode_utf16(body, true);
    }
    string_from_utf8_lossy(body)
}


/// Whether tool output holds anything but white space.
pub fn has_content(text: &str) -> (r: bool)
    ensures
        r == (trim(text@).len() > 0),
{
    let v = chars_of(text);
    let (lo, hi) = trim_bounds(&v);
    lo < hi
}

// ---------------------------------------------------------------------------
// CSV
// ---------------------------------------------------------------------------

/// Splitting a CSV line from position `i`, with the fields finished so far,
/// the field being read and whether a quoted stretch is open. Outside quotes
/// `,` ends a field and `"` opens quotes; inside quotes `""` stands for one
/// `"`, a doubled backslash for one backslash, and a lone `"` closes them.
/// The last field ends with the line.
pub open spec fn csv_scan(
    s: Seq<char>,
    i: int,
    fields: Seq<Seq<char>>,
    cur: Seq<char>,
    quoted: bool,
) -> Seq<Seq<char>>
    decreases s.len() - i,
{
    if i >= s.len() || i < 0 {
        fields.push(cur)
    } else {
        let c = s[i];
        if quoted {
            if c == '"' {
                if i + 1 < s.len() && s[i + 1] == '"' {
                    csv_scan(s, i + 2, fields, cur.push('"'), true)
                } else {
                    csv_scan(s, i + 1, fields, cur, false)
                }
            } else if c == '\\' && i + 1 < s.len() && s[i + 1] == '\\' {
                csv_scan(s, i + 2, fields, cur.push('\\'), true)
            } else {
                csv_scan(s, i + 1, fields, cur.push(c), true)
            }
        } else if c == '"' {
            csv_scan(s, i + 1, fields, cur, true)
        } else if c == ',' {
            csv_scan(s, i + 1, fields.push(cur), Seq::empty(), false)
        } else {
            csv_scan(s, i + 1, fields, cur.push(c), false)
        }
    }
}

/// The fields of one CSV line.
pub open spec fn csv_fields(line: Seq<char>) -> Seq<Seq<char>> {
    csv_scan(line, 0, Seq::empty(), Seq::empty(), false)
}

/// Scanning a line adds at least one field to those already read.
pub proof fn lemma_csv_scan_len(s: Seq<char>, i: int, fields: Seq<Seq<char>>, cur: Seq<char>, quoted: bool)
    ensures
        csv_scan(s, i, fields, cur, quoted).len() > fields.len(),
    decreases s.len() - i,
{
    if !(i >= s.len() || i < 0) {
        let c = s[i];
        if quoted {
            if c == '"' {
                if i + 1 < s.len() && s[i + 1] == '"' {
                    lemma_csv_scan_len(s, i + 2, fields, cur.push('"'), true);
                } else {
                    lemma_csv_scan_len(s, i + 1, fields, cur, false);
                }
            } else if c == '\\' && i + 1 < s.len() && s[i + 1] == '\\' {
                lemma_csv_scan_len(s, i + 2, fields, cur.push('\\'), true);
            } else {
                lemma_csv_scan_len(s, i + 1, fields, cur.push(c), true);
            }
        } else if c == '"' {
            lemma_csv_scan_len(s, i + 1, fields, cur, true);
        } else if c == ',' {
            lemma_csv_scan_len(s, i + 1, fields.push(cur), Seq::empty(), false);
        } else {
            lemma_csv_scan_len(s, i + 1, fields, cur.push(c), false);
        }
    }
}

fn csv_fields_of_chars(v: &Vec<char>) -> (r: Vec<String>)
    ensures
        strings_view(r@) == csv_fields(v@),
{
    let ghost s = v@;
    let n = v.len();
    let mut fields: Vec<String> = Vec::new();
    let mut cur: Vec<char> = Vec::new();
    let mut quoted = false;
    let mut i: usize = 0;
    assert(strings_view(fields@) =~= Seq::<Seq<char>>::empty());
    assert(cur@ =~= Seq::<char>::empty());
    while i < n
        invariant
            s == v@,
            n == s.len(),
            i <= n,
            csv_scan(s, i as int, strings_view(fields@), cur@, quoted) == csv_fields(s),
        decreases n - i,
    {
        let c = v[i];
        if quoted {
            if c == '"' {
                if i + 1 < n && v[i + 1] == '"' {
                    cur.push('"');
                    i += 2;
                } else {
                    quoted = false;
                    i += 1;
                }
            } else if c == '\\' && i + 1 < n && v[i + 1] == '\\' {
                cur.push('\\');
                i += 2;
            } else {
                cur.push(c);
                i += 1;
            }
        } else if c == '"' {
            quoted = true;
            i += 1;
        } else if c == ',' {
            let field = string_from_chars(&cur);
            let ghost before = fields@;
            fields.push(field);
            assert(strings_view(fields@) =~= strings_view(before).push(field@));
            cur = Vec::new();
            assert(cur@ =~= Seq::<char>::empty());
            i += 1;
        } else {
            cur.push(c);
            i += 1;
        }
    }
    let field = string_from_chars(&cur);
    let ghost before = fields@;
    fields.push(field);
    assert(strings_view(fields@) =~= strings_view(before).push(field@));
    fields
}

/// Splits one CSV line into fields, honoring double-quoted fields (see
/// [`csv_scan`]): quotes are stripped, and inside quotes `""` gives `"` and
/// a doubled backslash gives one backslash.
pub fn parse_csv_line(line: &str) -> (r: Vec<String>)
    ensures
        strings_view(r@) == csv_fields(line@),
{
    let v = chars_of(line);
    csv_fields_of_chars(&v)
}

// ---------------------------------------------------------------------------
// CSV tables
// ---------------------------------------------------------------------------

/// The trimmed lines of `ls` that are not blank, in order.
pub open spec fn nonblank_trimmed(ls: Seq<Seq<char>>) -> Seq<Seq<char>>
    decreases ls.len(),
{
    if ls.len() == 0 {
        Seq::empty()
    } else {
        let rest = nonblank_trimmed(ls.drop_last());
        if trim(ls.last()).len() > 0 { rest.push(trim(ls.last())) } else { rest }
    }
}

/// The table lines, for all lines: the non-blank lines, trimmed, in order.
pub proof fn lemma_nonblank_trimmed(ls: Seq<Seq<char>>)
    ensures
        nonblank_trimmed(ls) == ls.filter(|x: Seq<char>| trim(x).len() > 0).map_values(|x: Seq<char>| trim(x)),
    decreases ls.len(),
{
    let p = |x: Seq<char>| trim(x).len() > 0;
    let f = |x: Seq<char>| trim(x);
    if ls.len() == 0 {
        lemma_filter_map_empty(ls, p, f);
    } else {
        lemma_nonblank_trimmed(ls.drop_last());
        lemma_filter_map_step(ls, p, f);
    }
}

/// A header cell as it is looked up: trimmed and lowercased.
pub open spec fn header_name(field: Seq<char>) -> Seq<char> {
    lower_text(trim(field))
}

/// The value of a table: its column names and its data rows.
pub struct CsvTableView {
    pub headers: Seq<Seq<char>>,
    pub rows: Seq<Seq<Seq<char>>>,
}

/// The table that `text` holds: the first non-blank line names the columns,
/// the other non-blank lines are rows.
pub open spec fn csv_table(text: Seq<char>) -> CsvTableView {
    let ls = nonblank_trimmed(lines(text));
    if ls.len() == 0 {
        CsvTableView { headers: Seq::empty(), rows: Seq::empty() }
    } else {
        CsvTableView {
            headers: csv_fields(ls[0]).map_values(|f: Seq<char>| header_name(f)),
            rows: ls.drop_first().map_values(|l: Seq<char>| csv_fields(l)),
        }
    }
}

/// The values of a list of rows.
pub open spec fn rows_view(rows: Seq<Vec<String>>) -> Seq<Seq<Seq<char>>> {
    rows.map_values(|r: Vec<String>| strings_view(r@))
}

/// The first position of `name` in `hs`.
pub open spec fn position_of(hs: Seq<Seq<char>>, name: Seq<char>) -> Option<int>
    decreases hs.len(),
{
    if hs.len() == 0 {
        None
    } else {
        match position_of(hs.drop_last(), name) {
            Some(i) => Some(i),
            None => if hs.last() == name { Some(hs.len() - 1) } else { None },
        }
    }
}

/// The trimmed cell of `row` in the column named `name`, if both exist.
pub open spec fn cell(headers: Seq<Seq<char>>, row: Seq<Seq<char>>, name: Seq<char>) -> Option<Seq<char>> {
    match position_of(headers, name) {
        Some(i) => if 0 <= i < row.len() { Some(trim(row[i])) } else { None },
        None => None,
    }
}

/// A CSV table parsed from command output (`wmic /format:csv`,
/// `ConvertTo-Csv`, ...): a header row plus data rows, with cells looked up
/// by column name.
pub struct CsvTable {
    pub headers: Vec<String>,
    pub rows: Vec<Vec<String>>,
}

impl View for CsvTable {
    type V = CsvTableView;

    open spec fn view(&self) -> CsvTableView {
        CsvTableView { headers: strings_view(self.headers@), rows: rows_view(self.rows@) }
    }
}

fn chars_equal(a: &Vec<char>, b: &Vec<char>) -> (r: bool)
    ensures
        r == (a@ == b@),
{
    if a.len() != b.len() {
        return false;
    }
    let mut i: usize = 0;
    while i < a.len()
        invariant
            a@.len() == b@.len(),
            i <= a@.len(),
            forall|k: int| 0 <= k < i ==> a@[k] == b@[k],
        decreases a@.len() - i,
    {
        if a[i] != b[i] {
            return false;
        }
        i += 1;
    }
    assert(a@ =~= b@);
    true
}

impl CsvTable {
    /// Parses decoded text into a table (see [`csv_table`]).
    pub fn parse(text: &str) -> (t: CsvTable)
        ensures
            t@ == csv_table(text@),
    {
        let ls = lines_of(text);
        let ghost all = lines(text@);
        let mut headers: Vec<String> = Vec::new();
        let mut rows: Vec<Vec<String>> = Vec::new();
        let mut seen = false;
        let mut i: usize = 0;
        while i < ls.len()
            invariant
                all == lines(text@),
                ls@.len() == all.len(),
                forall|k: int| 0 <= k < ls@.len() ==> #[trigger] ls@[k]@ == all[k],
                i <= ls@.len(),
                seen == (nonblank_trimmed(all.take(i as int)).len() > 0),
                seen ==> strings_view(headers@) == csv_fields(nonblank_trimmed(all.take(i as int))[0]).map_values(
                    |f: Seq<char>| header_name(f),
                ),
                seen ==> rows_view(rows@) == nonblank_trimmed(all.take(i as int)).drop_first().map_values(
                    |l: Seq<char>| csv_fields(l),
                ),
                !seen ==> rows@.len() == 0,
                !seen ==> headers@.len() == 0,
            decreases ls@.len() - i,
        {
            let ghost pre = nonblank_trimmed(all.take(i as int));
            assert(all.take(i + 1).drop_last() =~= all.take(i as int));
            assert(all.take(i + 1).last() == all[i as int]);
            let line = trim_str(ls[i].as_str());
            if !line.is_empty() {
                let fields = parse_csv_line(line);
                if !seen {
                    let mut k: usize = 0;
                    let mut hs: Vec<String> = Vec::new();
                    while k < fields.len()
                        invariant
                            k <= fields@.len(),
                            hs@.len() == k,
                            forall|j: int| 0 <= j < k ==> #[trigger] hs@[j]@ == header_name(fields@[j]@),
                        decreases fields@.len() - k,
                    {
                        let cell_text = trim_str(fields[k].as_str());
                        hs.push(to_lowercase(cell_text));
                        k += 1;
                    }
                    headers = hs;
                    seen = true;
                    proof {
                        let post = nonblank_trimmed(all.take(i + 1));
                        assert(pre.len() == 0);
                        assert(post =~= seq![line@]);
                        assert(strings_view(headers@) =~= csv_fields(post[0]).map_values(|f: Seq<char>| header_name(f)));
                        assert(rows_view(rows@) =~= post.drop_first().map_values(|l: Seq<char>| csv_fields(l)));
                    }
                } else {
                    let ghost before = rows@;
                    rows.push(fields);
                    proof {
                        let post = nonblank_trimmed(all.take(i + 1));
                        assert(post == pre.push(line@));
                        assert(post[0] == pre[0]);
                        assert(post.drop_first() =~= pre.drop_first().push(line@));
                        assert(rows_view(rows@) =~= rows_view(before).push(csv_fields(line@)));
                        assert(rows_view(rows@) =~= post.drop_first().map_values(|l: Seq<char>| csv_fields(l)));
                    }
                }
            }
            i += 1;
        }
        assert(all.take(ls@.len() as int) =~= all);
        let t = CsvTable { headers, rows };
        proof {
            if !seen {
                assert(t@.headers =~= Seq::<Seq<char>>::empty());
                assert(t@.rows =~= Seq::<Seq<Seq<char>>>::empty());
            }
        }
        t
    }

    /// Number of data rows.
    pub fn row_count(&self) -> (r: usize)
        ensures
            r == self@.rows.len(),
    {
        self.rows.len()
    }

    /// Data row `i`.
    pub fn row(&self, i: usize) -> (r: &Vec<String>)
        requires
            i < self@.rows.len(),
        ensures
            strings_view(r@) == self@.rows[i as int],
    {
        &self.rows[i]
    }

    fn col_index(&self, name: &str) -> (r: Option<usize>)
        ensures
            match r {
                Some(i) => position_of(self@.headers, name@) == Some(i as int),
                None => position_of(self@.headers, name@) is None,
            },
    {
        let target = chars_of(name);
        let ghost hs = self@.headers;
        let mut i: usize = 0;
        while i < self.headers.len()
            invariant
                hs == self@.headers,
                hs.len() == self.headers@.len(),
                i <= hs.len(),
                target@ == name@,
                position_of(hs.take(i as int), name@) is None,
            decreases hs.len() - i,
        {
            let h = chars_of(self.headers[i].as_str());
            assert(hs.take(i + 1).drop_last() =~= hs.take(i as int));
            assert(hs[i as int] == h@);
            if chars_equal(&h, &target) {
                proof {
                    lemma_position_prefix(hs, name@, i as int + 1);
                }
                return Some(i);
            }
            i += 1;
        }
        assert(hs.take(hs.len() as int) =~= hs);
        None
    }

    /// The trimmed cell of `row` in the column named `name` (see [`cell`]).
    pub fn get<'a>(&self, row: &'a [String], name: &str) -> (r: Option<&'a str>)
        ensures
            r is Some == cell(self@.headers, strings_view(row@), name@) is Some,
            r matches Some(x) ==> cell(self@.headers, strings_view(row@), name@) == Some(x@),
    {
        match self.col_index(name) {
            Some(i) => {
                if i < row.len() {
                    Some(trim_str(row[i].as_str()))
                } else {
                    None
                }
            },
            None => None,
        }
    }
}

/// Once `name` is found in a prefix, longer prefixes find it at the same
/// place.
proof fn lemma_position_prefix(hs: Seq<Seq<char>>, name: Seq<char>, k: int)
    requires
        0 <= k <= hs.len(),
        position_of(hs.take(k), name) is Some,
    ensures
        position_of(hs, name) == position_of(hs.take(k), name),
    decreases hs.len() - k,
{
    if k < hs.len() {
        assert(hs.take(k + 1).drop_last() =~= hs.take(k));
        lemma_position_prefix(hs, name, k + 1);
    } else {
        assert(hs.take(k) =~= hs);
    }
}

// ---------------------------------------------------------------------------
// Laws
// ---------------------------------------------------------------------------

/// `f` with each `"` doubled, and each backslash too when `backslashes`.
pub open spec fn csv_escaped_by(f: Seq<char>, backslashes: bool) -> Seq<char>
    decreases f.len(),
{
    if f.len() == 0 {
        Seq::empty()
    } else {
        let c = f[0];
        (if c == '"' {
            seq!['"', '"']
        } else if backslashes && c == '\\' {
            seq!['\\', '\\']
        } else {
            seq![c]
        }) + csv_escaped_by(f.drop_first(), backslashes)
    }
}

/// `f` as a quoted CSV field, escaped as [`csv_escaped_by`] says.
pub open spec fn csv_quoted_by(f: Seq<char>, backslashes: bool) -> Seq<char> {
    seq!['"'] + csv_escaped_by(f, backslashes) + seq!['"']
}

/// The fields `fs` written as one CSV line, each quoted, separated by `,`.
pub open spec fn csv_line_by(fs: Seq<Seq<char>>, backslashes: bool) -> Seq<char>
    decreases fs.len(),
{
    if fs.len() <= 1 {
        if fs.len() == 1 { csv_quoted_by(fs[0], backslashes) } else { Seq::empty() }
    } else {
        csv_quoted_by(fs[0], backslashes) + seq![','] + csv_line_by(fs.drop_first(), backslashes)
    }
}

/// `f` holds no two backslashes in a row.
pub open spec fn no_double_backslash(f: Seq<char>) -> bool {
    forall|i: int| 0 <= i < f.len() - 1 ==> !(#[trigger] f[i] == '\\' && f[i + 1] == '\\')
}

/// Every field of `fs` holds no two backslashes in a row.
pub open spec fn fields_without_double_backslash(fs: Seq<Seq<char>>) -> bool {
    forall|k: int| 0 <= k < fs.len() ==> no_double_backslash(#[trigger] fs[k])
}

/// The first character of an escaped field body is a backslash only when the
/// field starts with one.
proof fn lemma_escaped_first(g: Seq<char>, backslashes: bool)
    requires
        g.len() > 0,
    ensures
        csv_escaped_by(g, backslashes).len() > 0,
        csv_escaped_by(g, backslashes)[0] == '\\' <==> g[0] == '\\',
{
    let c = g[0];
    let head: Seq<char> = if c == '"' {
        seq!['"', '"']
    } else if backslashes && c == '\\' {
        seq!['\\', '\\']
    } else {
        seq![c]
    };
    assert(csv_escaped_by(g, backslashes) == head + csv_escaped_by(g.drop_first(), backslashes));
}

/// Reading an escaped field body up to its closing quote.
proof fn lemma_scan_escaped(
    s: Seq<char>,
    i: int,
    g: Seq<char>,
    backslashes: bool,
    fields: Seq<Seq<char>>,
    cur: Seq<char>,
)
    requires
        0 <= i,
        backslashes || no_double_backslash(g),
        i + csv_escaped_by(g, backslashes).len() < s.len(),
        s.subrange(i, i + csv_escaped_by(g, backslashes).len()) == csv_escaped_by(g, backslashes),
        s[i + csv_escaped_by(g, backslashes).len()] == '"',
        i + csv_escaped_by(g, backslashes).len() + 1 >= s.len() || s[i + csv_escaped_by(g, backslashes).len() + 1] != '"',
    ensures
        csv_scan(s, i, fields, cur, true) == csv_scan(
            s,
            i + csv_escaped_by(g, backslashes).len() + 1,
            fields,
            cur + g,
            false,
        ),
    decreases g.len(),
{
    let e = csv_escaped_by(g, backslashes);
    if g.len() == 0 {
        assert(cur + g =~= cur);
    } else {
        let c = g[0];
        let rest = g.drop_first();
        let er = csv_escaped_by(rest, backslashes);
        let head: Seq<char> = if c == '"' {
            seq!['"', '"']
        } else if backslashes && c == '\\' {
            seq!['\\', '\\']
        } else {
            seq![c]
        };
        assert(e == head + er);
        let k = head.len() as int;
        assert(s[i] == e[0]);
        assert(s.subrange(i + k, i + k + er.len()) =~= er) by {
            assert forall|t: int| 0 <= t < er.len() implies s.subrange(i + k, i + k + er.len())[t] == er[t] by {
                assert(s.subrange(i, i + e.len())[k + t] == e[k + t]);
            }
        }
        if k == 2 {
            assert(s[i + 1] == e[1]);
        }
        if !backslashes && c == '\\' {
            // The next character is not a second backslash.
            if rest.len() > 0 {
                assert(g[0] == '\\' && rest[0] == g[1]);
                assert(!(g[0] == '\\' && g[1] == '\\'));
                lemma_escaped_first(rest, backslashes);
                assert(s[i + 1] == s.subrange(i, i + e.len())[1]);
                assert(s[i + 1] == er[0]);
            } else {
                assert(er.len() == 0);
            }
            assert(s[i + 1] != '\\');
        }
        if !backslashes {
            assert forall|t: int| 0 <= t < rest.len() - 1 implies !(#[trigger] rest[t] == '\\' && rest[t + 1] == '\\') by {
                assert(rest[t] == g[t + 1] && rest[t + 1] == g[t + 2]);
            }
        }
        lemma_scan_escaped(s, i + k, rest, backslashes, fields, cur.push(c));
        assert(cur.push(c) + rest =~= cur + g);
    }
}

/// Reading quoted fields separated by commas up to the end of the line.
proof fn lemma_scan_line(s: Seq<char>, i: int, fs: Seq<Seq<char>>, backslashes: bool, fields: Seq<Seq<char>>)
    requires
        fs.len() >= 1,
        backslashes || fields_without_double_backslash(fs),
        0 <= i <= s.len(),
        s.subrange(i, s.len() as int) == csv_line_by(fs, backslashes),
    ensures
        csv_scan(s, i, fields, Seq::empty(), false) == fields + fs,
    decreases fs.len(),
{
    let q = csv_quoted_by(fs[0], backslashes);
    let e = csv_escaped_by(fs[0], backslashes);
    let line = csv_line_by(fs, backslashes);
    assert(line =~= if fs.len() == 1 { q } else { q + seq![','] + csv_line_by(fs.drop_first(), backslashes) });
    assert(s[i] == line[0]);
    let j = i + 1 + e.len();
    assert forall|t: int| 0 <= t < e.len() implies s.subrange(i + 1, j)[t] == e[t] by {
        assert(s.subrange(i, s.len() as int)[1 + t] == line[1 + t]);
    }
    assert(s.subrange(i + 1, j) =~= e);
    assert(s[j] == line[1 + e.len() as int]);
    if !backslashes {
        assert(no_double_backslash(fs[0]));
    }
    if fs.len() == 1 {
        assert(line.len() == e.len() + 2);
        lemma_scan_escaped(s, i + 1, fs[0], backslashes, fields, Seq::empty());
        assert(Seq::<char>::empty() + fs[0] =~= fs[0]);
        assert(fields.push(fs[0]) =~= fields + fs);
    } else {
        assert(s[j + 1] == line[2 + e.len() as int]);
        lemma_scan_escaped(s, i + 1, fs[0], backslashes, fields, Seq::empty());
        assert(Seq::<char>::empty() + fs[0] =~= fs[0]);
        let rest = csv_line_by(fs.drop_first(), backslashes);
        assert forall|t: int| 0 <= t < rest.len() implies s.subrange(j + 2, s.len() as int)[t] == rest[t] by {
            assert(s.subrange(i, s.len() as int)[e.len() + 3 + t] == line[e.len() + 3 + t]);
        }
        assert(s.subrange(j + 2, s.len() as int) =~= rest);
        if !backslashes {
            assert forall|k: int| 0 <= k < fs.drop_first().len() implies no_double_backslash(
                #[trigger] fs.drop_first()[k],
            ) by {
                assert(fs.drop_first()[k] == fs[k + 1]);
            }
        }
        lemma_scan_line(s, j + 2, fs.drop_first(), backslashes, fields.push(fs[0]));
        assert(fields.push(fs[0]) + fs.drop_first() =~= fields + fs);
    }
}

/// `f` holds neither `,` nor `"`.
pub open spec fn plain_field(f: Seq<char>) -> bool {
    forall|i: int| 0 <= i < f.len() ==> #[trigger] f[i] != ',' && f[i] != '"'
}

/// The fields `fs` joined by `,`, unquoted.
pub open spec fn plain_line(fs: Seq<Seq<char>>) -> Seq<char>
    decreases fs.len(),
{
    if fs.len() <= 1 {
        if fs.len() == 1 { fs[0] } else { Seq::empty() }
    } else {
        fs[0] + seq![','] + plain_line(fs.drop_first())
    }
}

/// Reading an unquoted field up to the next `,` or the end of the line.
proof fn lemma_scan_plain(s: Seq<char>, i: int, f: Seq<char>, fields: Seq<Seq<char>>, cur: Seq<char>)
    requires
        0 <= i,
        i + f.len() <= s.len(),
        s.subrange(i, i + f.len()) == f,
        plain_field(f),
    ensures
        csv_scan(s, i, fields, cur, false) == csv_scan(s, i + f.len(), fields, cur + f, false),
    decreases f.len(),
{
    if f.len() == 0 {
        assert(cur + f =~= cur);
    } else {
        let rest = f.drop_first();
        assert(s[i] == s.subrange(i, i + f.len())[0]);
        assert(s[i] == f[0]);
        assert(s.subrange(i + 1, i + 1 + rest.len()) =~= rest) by {
            assert forall|t: int| 0 <= t < rest.len() implies s.subrange(i + 1, i + 1 + rest.len())[t] == rest[t] by {
                assert(s.subrange(i, i + f.len())[1 + t] == f[1 + t]);
            }
        }
        assert forall|t: int| 0 <= t < rest.len() implies #[trigger] rest[t] != ',' && rest[t] != '"' by {
            assert(rest[t] == f[t + 1]);
        }
        lemma_scan_plain(s, i + 1, rest, fields, cur.push(f[0]));
        assert(cur.push(f[0]) + rest =~= cur + f);
    }
}

proof fn lemma_scan_plain_line(s: Seq<char>, i: int, fs: Seq<Seq<char>>, fields: Seq<Seq<char>>)
    requires
        fs.len() >= 1,
        forall|k: int| 0 <= k < fs.len() ==> plain_field(#[trigger] fs[k]),
        0 <= i <= s.len(),
        s.subrange(i, s.len() as int) == plain_line(fs),
    ensures
        csv_scan(s, i, fields, Seq::empty(), false) == fields + fs,
    decreases fs.len(),
{
    let f = fs[0];
    let line = plain_line(fs);
    let j = i + f.len();
    assert(plain_field(f));
    if fs.len() == 1 {
        assert(line == f);
    } else {
        assert(line == f + seq![','] + plain_line(fs.drop_first()));
    }
    assert(line.len() >= f.len());
    assert forall|t: int| 0 <= t < f.len() implies line[t] == f[t] by {
        if fs.len() > 1 {
            assert((f + seq![','] + plain_line(fs.drop_first()))[t] == f[t]);
        }
    }
    assert forall|t: int| 0 <= t < f.len() implies s.subrange(i, j)[t] == f[t] by {
        assert(s.subrange(i, s.len() as int)[t] == line[t]);
    }
    assert(s.subrange(i, j) =~= f);
    lemma_scan_plain(s, i, f, fields, Seq::empty());
    assert(Seq::<char>::empty() + f =~= f);
    if fs.len() == 1 {
        assert(line == f);
        assert(j == s.len());
        assert(fields.push(f) =~= fields + fs);
    } else {
        let rest = plain_line(fs.drop_first());
        assert(line == f + seq![','] + rest);
        assert(s[j] == line[f.len() as int]);
        assert forall|t: int| 0 <= t < rest.len() implies s.subrange(j + 1, s.len() as int)[t] == rest[t] by {
            assert(s.subrange(i, s.len() as int)[f.len() + 1 + t] == line[f.len() + 1 + t]);
        }
        assert(s.subrange(j + 1, s.len() as int) =~= rest);
        assert forall|k: int| 0 <= k < fs.drop_first().len() implies plain_field(#[trigger] fs.drop_first()[k]) by {
            assert(fs.drop_first()[k] == fs[k + 1]);
        }
        lemma_scan_plain_line(s, j + 1, fs.drop_first(), fields.push(f));
        assert(fields.push(f) + fs.drop_first() =~= fields + fs);
    }
}

/// Unquoted fields without `,` or `"`, joined by `,`, are read back
/// exactly, every other character (spaces, backslashes, ...) kept.
pub proof fn lemma_csv_plain_round_trip(fs: Seq<Seq<char>>)
    requires
        fs.len() >= 1,
        forall|k: int| 0 <= k < fs.len() ==> plain_field(#[trigger] fs[k]),
    ensures
        csv_fields(plain_line(fs)) == fs,
{
    let s = plain_line(fs);
    assert(s.subrange(0, s.len() as int) =~= s);
    lemma_scan_plain_line(s, 0, fs, Seq::empty());
    assert(Seq::<Seq<char>>::empty() + fs =~= fs);
}

/// Fields written as quoted CSV, with quotes and backslashes doubled, are
/// read back exactly.
pub proof fn lemma_csv_round_trip(fs: Seq<Seq<char>>)
    requires
        fs.len() >= 1,
    ensures
        csv_fields(csv_line_by(fs, true)) == fs,
{
    let s = csv_line_by(fs, true);
    assert(s.subrange(0, s.len() as int) =~= s);
    lemma_scan_line(s, 0, fs, true, Seq::empty());
    assert(Seq::<Seq<char>>::empty() + fs =~= fs);
}

/// Fields written as RFC 4180 quoted CSV (only quotes doubled) are read back
/// exactly, when no field holds two backslashes in a row.
pub proof fn lemma_csv_round_trip_quotes_only(fs: Seq<Seq<char>>)
    requires
        fs.len() >= 1,
        fields_without_double_backslash(fs),
    ensures
        csv_fields(csv_line_by(fs, false)) == fs,
{
    let s = csv_line_by(fs, false);
    assert(s.subrange(0, s.len() as int) =~= s);
    lemma_scan_line(s, 0, fs, false, Seq::empty());
    assert(Seq::<Seq<char>>::empty() + fs =~= fs);
}

/// The UTF-16LE byte encoding of `us`.
pub open spec fn le_bytes(us: Seq<u16>) -> Seq<u8> {
    Seq::new(2 * us.len(), |k: int| if k % 2 == 0 { (us[k / 2] % 256) as u8 } else { (us[k / 2] / 256) as u8 })
}

/// The UTF-16BE byte encoding of `us`.
pub open spec fn be_bytes(us: Seq<u16>) -> Seq<u8> {
    Seq::new(2 * us.len(), |k: int| if k % 2 == 0 { (us[k / 2] / 256) as u8 } else { (us[k / 2] % 256) as u8 })
}

proof fn lemma_le_units_of_bytes(us: Seq<u16>)
    ensures
        le_units(le_bytes(us)) == us,
        be_units(be_bytes(us)) == us,
{
    let b = le_bytes(us);
    let c = be_bytes(us);
    assert forall|k: int| 0 <= k < us.len() implies le_units(b)[k] == us[k] && be_units(c)[k] == us[k] by {
        assert((2 * k) % 2 == 0 && (2 * k) / 2 == k);
        assert((2 * k + 1) % 2 == 1 && (2 * k + 1) / 2 == k);
        let u = us[k];
        assert(u % 256 + 256 * (u / 256) == u);
    }
    assert(le_units(b) =~= us);
    assert(be_units(c) =~= us);
}

/// Output that carries a UTF-16LE mark is decoded from exactly the units
/// that follow it.
pub proof fn lemma_decode_utf16le_with_mark(us: Seq<u16>)
    ensures
        decoded_output(seq![0xFFu8, 0xFEu8] + le_bytes(us)) == utf16_lossy(us),
{
    let raw = seq![0xFFu8, 0xFEu8] + le_bytes(us);
    assert(raw.skip(2) =~= le_bytes(us));
    lemma_le_units_of_bytes(us);
}

/// Output that carries a UTF-16BE mark is decoded from exactly the units
/// that follow it.
pub proof fn lemma_decode_utf16be_with_mark(us: Seq<u16>)
    ensures
        decoded_output(seq![0xFEu8, 0xFFu8] + be_bytes(us)) == utf16_lossy(us),
{
    let raw = seq![0xFEu8, 0xFFu8] + be_bytes(us);
    assert(raw.skip(2) =~= be_bytes(us));
    lemma_le_units_of_bytes(us);
}

proof fn lemma_zero_count_bound(b: Seq<u8>)
    ensures
        zero_count(b) <= b.len(),
    decreases b.len(),
{
    if b.len() > 0 {
        lemma_zero_count_bound(b.drop_last());
    }
}

proof fn lemma_zero_count_ascii_le(us: Seq<u16>, n: int)
    requires
        0 <= n <= us.len(),
        forall|i: int| 0 <= i < us.len() ==> 0 < #[trigger] us[i] < 0x80,
    ensures
        zero_count(le_bytes(us).take(2 * n)) == n,
    decreases n,
{
    if n > 0 {
        lemma_zero_count_ascii_le(us, n - 1);
        let b = le_bytes(us);
        let t = b.take(2 * n);
        assert(t.drop_last().drop_last() =~= b.take(2 * (n - 1)));
        assert((2 * n - 1) % 2 == 1 && (2 * n - 1) / 2 == n - 1);
        assert((2 * n - 2) % 2 == 0 && (2 * n - 2) / 2 == n - 1);
        assert(t.last() == b[2 * n - 1]);
        assert(t.drop_last().last() == b[2 * n - 2]);
        assert(b[2 * n - 1] == 0);
        assert(b[2 * n - 2] != 0);
        assert(zero_count(t.drop_last()) == zero_count(t.drop_last().drop_last()));
        assert(zero_count(t) == zero_count(t.drop_last()) + 1);
    } else {
        assert(le_bytes(us).take(0).len() == 0);
    }
}

/// Any text written as UTF-16 (little- or big-endian) after its byte-order
/// mark decodes back exactly, characters above U+FFFF included.
pub proof fn lemma_decode_text_with_mark(s: Seq<char>)
    ensures
        decoded_output(seq![0xFFu8, 0xFEu8] + le_bytes(utf16_encode(s))) == s,
        decoded_output(seq![0xFEu8, 0xFFu8] + be_bytes(utf16_encode(s))) == s,
{
    lemma_decode_utf16le_with_mark(utf16_encode(s));
    lemma_decode_utf16be_with_mark(utf16_encode(s));
    lemma_utf16_round_trip(s);
}

/// Any text written as UTF-16LE without a mark, whose bytes are more than a
/// quarter NUL (as UTF-16 text mostly is), decodes back exactly, whatever
/// characters it holds; only bytes that happen to start like a mark are
/// left out.
pub proof fn lemma_decode_bomless_utf16le(s: Seq<char>)
    requires
        !has_utf16le_bom(le_bytes(utf16_encode(s))),
        !has_utf16be_bom(le_bytes(utf16_encode(s))),
        !has_utf8_bom(le_bytes(utf16_encode(s))),
        looks_like_utf16le(le_bytes(utf16_encode(s))),
    ensures
        decoded_output(le_bytes(utf16_encode(s))) == s,
{
    lemma_le_units_of_bytes(utf16_encode(s));
    lemma_utf16_round_trip(s);
}

/// ASCII text in UTF-16LE without a mark is recognised by its NUL bytes and
/// decoded from exactly its units.
pub proof fn lemma_decode_bomless_ascii_utf16le(us: Seq<u16>)
    requires
        us.len() >= 1,
        forall|i: int| 0 <= i < us.len() ==> 0 < #[trigger] us[i] < 0x80,
    ensures
        decoded_output(le_bytes(us)) == utf16_lossy(us),
{
    let b = le_bytes(us);
    lemma_zero_count_ascii_le(us, us.len() as int);
    assert(b.take(2 * us.len() as int) =~= b);
    assert(b[0] == (us[0] % 256) as u8);
    lemma_le_units_of_bytes(us);
}

proof fn lemma_zero_count_none(b: Seq<u8>)
    requires
        forall|i: int| 0 <= i < b.len() ==> #[trigger] b[i] != 0,
    ensures
        zero_count(b) == 0,
    decreases b.len(),
{
    if b.len() > 0 {
        lemma_zero_count_none(b.drop_last());
        assert(b.last() == b[b.len() - 1]);
    }
}

/// Output without a UTF-16 mark and without NUL bytes (as valid UTF-8 text
/// is) is read as UTF-8, after dropping a UTF-8 mark.
pub proof fn lemma_decode_nul_free_as_utf8(raw: Seq<u8>)
    requires
        !has_utf16le_bom(raw),
        !has_utf16be_bom(raw),
        forall|i: int| 0 <= i < raw.len() ==> #[trigger] raw[i] != 0,
    ensures
        decoded_output(raw) == utf8_lossy(if has_utf8_bom(raw) { raw.skip(3) } else { raw }),
{
    let body = if has_utf8_bom(raw) { raw.skip(3) } else { raw };
    assert forall|i: int| 0 <= i < body.len() implies #[trigger] body[i] != 0 by {
        if has_utf8_bom(raw) {
            assert(body[i] == raw[i + 3]);
        }
    }
    lemma_zero_count_none(body);
}
} // verus!
