//! Verified text primitives shared by the report renderer, the CSV reader
//! and the detection rules: character access, trimming, line splitting,
//! substring search and decimal rendering.
use vstd::prelude::*;

verus! {

// ---------------------------------------------------------------------------
// Names for results of std functions that vstd leaves unspecified.
// ---------------------------------------------------------------------------

/// Whether `c` carries the Unicode `White_Space` property: the controls
/// U+0009..U+000D, the space, U+0085, U+00A0, U+1680, U+2000..U+200A,
/// U+2028, U+2029, U+202F, U+205F and U+3000.
pub open spec fn is_white_space(c: char) -> bool {
    let u = c as u32;
    ||| 0x09 <= u <= 0x0D
    ||| u == 0x20
    ||| u == 0x85
    ||| u == 0xA0
    ||| u == 0x1680
    ||| 0x2000 <= u <= 0x200A
    ||| u == 0x2028
    ||| u == 0x2029
    ||| u == 0x202F
    ||| u == 0x205F
    ||| u == 0x3000
}

/// The Unicode lowercase mapping of a whole string (the result of
/// `str::to_lowercase`).
pub uninterp spec fn lowercase(s: Seq<char>) -> Seq<char>;

/// `c` is an ASCII character.
pub open spec fn is_ascii_char(c: char) -> bool {
    (c as u32) < 0x80
}

/// The ASCII lowercase of `c`: `A`..`Z` become `a`..`z`, every other
/// character stays.
pub open spec fn ascii_lower(c: char) -> char {
    if 'A' <= c <= 'Z' { ((c as u32) + 32) as char } else { c }
}

/// Every character of `s` is ASCII.
pub open spec fn is_ascii_text(s: Seq<char>) -> bool {
    forall|i: int| 0 <= i < s.len() ==> is_ascii_char(#[trigger] s[i])
}

/// The lowercase of `s` as `str::to_lowercase` gives it: for ASCII text
/// `A`..`Z` become `a`..`z` and the rest stays; other text by the Unicode
/// mapping [`lowercase`].
pub open spec fn lower_text(s: Seq<char>) -> Seq<char> {
    if is_ascii_text(s) { s.map_values(|c: char| ascii_lower(c)) } else { lowercase(s) }
}

/// Whether `c` has the Unicode `White_Space` property (as
/// `char::is_whitespace` answers).
pub fn char_is_whitespace(c: char) -> (b: bool)
    ensures
        b == is_white_space(c),
{
    let u = c as u32;
    (0x09 <= u && u <= 0x0D) || u == 0x20 || u == 0x85 || u == 0xA0 || u == 0x1680 || (0x2000 <= u
        && u <= 0x200A) || u == 0x2028 || u == 0x2029 || u == 0x202F || u == 0x205F || u == 0x3000
}

/// `str::to_lowercase`: the result is the Unicode lowercase mapping of `s`,
/// named by `lowercase`. Stated: on ASCII text it maps `A`..`Z` to `a`..`z`
/// and keeps every other character; the mapping of other text is not
/// spelled out.
#[verifier::external_body]
pub(crate) fn to_lowercase(s: &str) -> (r: String)
    ensures
        r@ == lowercase(s@),
        is_ascii_text(s@) ==> r@ == s@.map_values(|c: char| ascii_lower(c)),
{
    s.to_lowercase()
}

/// `String::push`: appends one character.
#[verifier::external_body]
pub(crate) fn push_char(s: &mut String, c: char)
    ensures
        final(s)@ == old(s)@.push(c),
{
    s.push(c);
}

// ---------------------------------------------------------------------------
// Characters and strings
// ---------------------------------------------------------------------------

/// The characters of `s`, collected into a vector.
pub fn chars_of(s: &str) -> (v: Vec<char>)
    ensures
        v@ == s@,
{
    let mut v: Vec<char> = Vec::new();
    for c in it: s.chars()
        invariant
            v@ == it.seq().take(it.index() as int),
    {
        v.push(c);
    }
    v
}

/// A new string holding `v[lo..hi]`.
pub fn string_from_range(v: &Vec<char>, lo: usize, hi: usize) -> (s: String)
    requires
        lo <= hi <= v@.len(),
    ensures
        s@ == v@.subrange(lo as int, hi as int),
{
    let mut s = String::new();
    let mut i = lo;
    while i < hi
        invariant
            lo <= i <= hi <= v@.len(),
            s@ == v@.subrange(lo as int, i as int),
        decreases hi - i,
    {
        push_char(&mut s, v[i]);
        assert(v@.subrange(lo as int, i + 1) == v@.subrange(lo as int, i as int).push(v@[i as int]));
        i += 1;
    }
    s
}

/// A new string holding all of `v`.
pub fn string_from_chars(v: &Vec<char>) -> (s: String)
    ensures
        s@ == v@,
{
    let s = string_from_range(v, 0, v.len());
    assert(v@.subrange(0, v@.len() as int) == v@);
    s
}

// ---------------------------------------------------------------------------
// Trimming
// ---------------------------------------------------------------------------

/// `s` without its leading white space.
pub open spec fn trim_start(s: Seq<char>) -> Seq<char>
    decreases s.len(),
{
    if s.len() > 0 && is_white_space(s[0]) {
        trim_start(s.drop_first())
    } else {
        s
    }
}

/// `s` without its trailing white space.
pub open spec fn trim_end(s: Seq<char>) -> Seq<char>
    decreases s.len(),
{
    if s.len() > 0 && is_white_space(s.last()) {
        trim_end(s.drop_last())
    } else {
        s
    }
}

/// `s` without leading and trailing white space (what `str::trim` gives).
pub open spec fn trim(s: Seq<char>) -> Seq<char> {
    trim_end(trim_start(s))
}

/// Bounds `(lo, hi)` such that `v[lo..hi]` is `v` trimmed.
pub fn trim_bounds(v: &Vec<char>) -> (r: (usize, usize))
    ensures
        r.0 <= r.1 <= v@.len(),
        v@.subrange(r.0 as int, r.1 as int) == trim(v@),
{
    let n = v.len();
    let mut lo: usize = 0;
    assert(v@.subrange(0, n as int) == v@);
    while lo < n && char_is_whitespace(v[lo])
        invariant
            lo <= n == v@.len(),
            trim_start(v@) == trim_start(v@.subrange(lo as int, n as int)),
        decreases n - lo,
    {
        let ghost rest = v@.subrange(lo as int, n as int);
        assert(rest.drop_first() == v@.subrange(lo + 1, n as int));
        lo += 1;
    }
    assert(trim_start(v@) == v@.subrange(lo as int, n as int));
    let mut hi: usize = n;
    while hi > lo && char_is_whitespace(v[hi - 1])
        invariant
            lo <= hi <= n == v@.len(),
            trim(v@) == trim_end(v@.subrange(lo as int, hi as int)),
        decreases hi - lo,
    {
        let ghost mid = v@.subrange(lo as int, hi as int);
        assert(mid.drop_last() == v@.subrange(lo as int, hi - 1));
        hi -= 1;
    }
    (lo, hi)
}

/// `str::trim`, over `is_white_space`.
pub fn trim_str(s: &str) -> (r: &str)
    ensures
        r@ == trim(s@),
{
    let v = chars_of(s);
    let (lo, hi) = trim_bounds(&v);
    s.substring_char(lo, hi)
}

/// A new string holding `s` trimmed.
pub fn trimmed_string(s: &str) -> (r: String)
    ensures
        r@ == trim(s@),
{
    let v = chars_of(s);
    let (lo, hi) = trim_bounds(&v);
    string_from_range(&v, lo, hi)
}

// ---------------------------------------------------------------------------
// Splitting
// ---------------------------------------------------------------------------

/// The pieces of `s` between occurrences of `sep` (at least one piece).
pub open spec fn split_on(s: Seq<char>, sep: char) -> Seq<Seq<char>>
    decreases s.len(),
{
    if s.len() == 0 {
        seq![Seq::<char>::empty()]
    } else {
        let p = split_on(s.drop_last(), sep);
        if s.last() == sep {
            p.push(Seq::<char>::empty())
        } else {
            p.update(p.len() - 1, p.last().push(s.last()))
        }
    }
}

/// `split_on` always yields at least one piece.
pub proof fn lemma_split_on_nonempty(s: Seq<char>, sep: char)
    ensures
        split_on(s, sep).len() >= 1,
    decreases s.len(),
{
    if s.len() > 0 {
        lemma_split_on_nonempty(s.drop_last(), sep);
    }
}

/// `p` without one trailing carriage return.
pub open spec fn strip_cr(p: Seq<char>) -> Seq<char> {
    if p.len() > 0 && p.last() == '\r' {
        p.drop_last()
    } else {
        p
    }
}

/// The lines of `s`, as `str::lines` yields them: split at `\n`, one `\r`
/// before each `\n` dropped, and no empty line after a final `\n`.
pub open spec fn lines(s: Seq<char>) -> Seq<Seq<char>> {
    let p = split_on(s, '\n');
    let k = if p.last().len() == 0 { p.len() - 1 } else { p.len() as int };
    Seq::new(k as nat, |i: int| if i < p.len() - 1 { strip_cr(p[i]) } else { p[i] })
}

/// The pieces of `v` between occurrences of `sep`, as in `split_on`.
pub fn split_chars(v: &Vec<char>, sep: char) -> (r: Vec<Vec<char>>)
    ensures
        r@.len() == split_on(v@, sep).len(),
        forall|i: int| 0 <= i < r@.len() ==> #[trigger] r@[i]@ == split_on(v@, sep)[i],
{
    let mut done: Vec<Vec<char>> = Vec::new();
    let mut cur: Vec<char> = Vec::new();
    let mut i: usize = 0;
    while i < v.len()
        invariant
            i <= v@.len(),
            done@.len() + 1 == split_on(v@.take(i as int), sep).len(),
            forall|k: int| 0 <= k < done@.len() ==> #[trigger] done@[k]@ == split_on(v@.take(i as int), sep)[k],
            cur@ == split_on(v@.take(i as int), sep).last(),
        decreases v@.len() - i,
    {
        let c = v[i];
        let ghost pre = v@.take(i as int);
        assert(v@.take(i + 1).drop_last() == pre);
        assert(v@.take(i + 1).last() == c);
        proof { lemma_split_on_nonempty(pre, sep); }
        if c == sep {
            let finished = cur;
            done.push(finished);
            cur = Vec::new();
        } else {
            cur.push(c);
        }
        i += 1;
    }
    assert(v@.take(v@.len() as int) == v@);
    done.push(cur);
    done
}

/// `str::lines`: the lines of `s` as new strings.
pub fn lines_of(s: &str) -> (r: Vec<String>)
    ensures
        r@.len() == lines(s@).len(),
        forall|i: int| 0 <= i < r@.len() ==> #[trigger] r@[i]@ == lines(s@)[i],
{
    let v = chars_of(s);
    let pieces = split_chars(&v, '\n');
    proof { lemma_split_on_nonempty(v@, '\n'); }
    let ghost p = split_on(v@, '\n');
    let n = pieces.len();
    let k = if pieces[n - 1].len() == 0 { n - 1 } else { n };
    let mut out: Vec<String> = Vec::new();
    let mut i: usize = 0;
    while i < k
        invariant
            p == split_on(v@, '\n'),
            k <= n == p.len() == pieces@.len(),
            k == (if p.last().len() == 0 { p.len() - 1 } else { p.len() as int }),
            forall|j: int| 0 <= j < n ==> #[trigger] pieces@[j]@ == p[j],
            i <= k,
            out@.len() == i,
            forall|j: int| 0 <= j < i ==> #[trigger] out@[j]@ == lines(v@)[j],
        decreases k - i,
    {
        let piece = &pieces[i];
        let m = piece.len();
        assert(piece@ == p[i as int]);
        assert(lines(v@).len() == k);
        assert(lines(v@)[i as int] == (if i < p.len() - 1 { strip_cr(p[i as int]) } else { p[i as int] }));
        let line = if i + 1 < n && m > 0 && piece[m - 1] == '\r' {
            let l = string_from_range(piece, 0, m - 1);
            assert(piece@.drop_last() == piece@.subrange(0, m - 1));
            l
        } else {
            string_from_chars(piece)
        };
        out.push(line);
        i += 1;
    }
    out
}

// ---------------------------------------------------------------------------
// Substring search
// ---------------------------------------------------------------------------

/// `p` occurs in `s` starting at index `i`.
pub open spec fn occurs_at(s: Seq<char>, p: Seq<char>, i: int) -> bool {
    0 <= i && i + p.len() <= s.len() && s.subrange(i, i + p.len()) == p
}

/// `p` occurs somewhere in `s` (what `str::contains` answers for a `&str`
/// pattern).
pub open spec fn has_substring(s: Seq<char>, p: Seq<char>) -> bool {
    exists|i: int| occurs_at(s, p, i)
}

/// Whether `p` occurs in `s` at index `i`.
pub fn chars_match_at(s: &Vec<char>, p: &Vec<char>, i: usize) -> (b: bool)
    requires
        i <= s@.len(),
    ensures
        b == occurs_at(s@, p@, i as int),
{
    let slen = s.len();
    if p.len() > slen - i {
        return false;
    }
    let mut j: usize = 0;
    while j < p.len()
        invariant
            slen == s@.len(),
            i <= s@.len(),
            i + p@.len() <= s@.len(),
            j <= p@.len(),
            forall|k: int| 0 <= k < j ==> s@[i + k] == p@[k],
        decreases p@.len() - j,
    {
        assert(j < p@.len());
        assert(i + j < s@.len());
        if s[i + j] != p[j] {
            assert(s@.subrange(i as int, i + p@.len())[j as int] != p@[j as int]);
            return false;
        }
        j += 1;
    }
    assert(s@.subrange(i as int, i + p@.len()) =~= p@);
    true
}

/// Whether `p` occurs somewhere in `s`.
pub fn chars_contain(s: &Vec<char>, p: &Vec<char>) -> (b: bool)
    ensures
        b == has_substring(s@, p@),
{
    if p.len() > s.len() {
        return false;
    }
    let last = s.len() - p.len();
    let mut i: usize = 0;
    loop
        invariant
            i <= last,
            last + p@.len() == s@.len(),
            forall|k: int| 0 <= k < i ==> !occurs_at(s@, p@, k),
        ensures
            forall|k: int| 0 <= k <= last ==> !occurs_at(s@, p@, k),
        decreases last - i,
    {
        if chars_match_at(s, p, i) {
            return true;
        }
        if i == last {
            break;
        }
        i += 1;
    }
    false
}

/// `str::contains` with a string pattern.
pub fn str_contains(s: &str, p: &str) -> (b: bool)
    ensures
        b == has_substring(s@, p@),
{
    let sv = chars_of(s);
    let pv = chars_of(p);
    chars_contain(&sv, &pv)
}

// ---------------------------------------------------------------------------
// Decimal numbers
// ---------------------------------------------------------------------------

/// The digit character for `d < 10`.
pub open spec fn digit_char(d: nat) -> char {
    if d == 0 { '0' }
    else if d == 1 { '1' }
    else if d == 2 { '2' }
    else if d == 3 { '3' }
    else if d == 4 { '4' }
    else if d == 5 { '5' }
    else if d == 6 { '6' }
    else if d == 7 { '7' }
    else if d == 8 { '8' }
    else { '9' }
}

/// The decimal rendering of `n`, without leading zeros (`format!("{}", n)`).
pub open spec fn decimal(n: nat) -> Seq<char>
    decreases n,
{
    if n < 10 {
        seq![digit_char(n)]
    } else {
        decimal(n / 10).push(digit_char(n % 10))
    }
}

/// `decimal(n)` padded on the left with zeros to at least `width` characters
/// (`format!("{:0width$}", n)`).
pub open spec fn zero_padded(n: nat, width: nat) -> Seq<char> {
    let d = decimal(n);
    if d.len() < width {
        Seq::new((width - d.len()) as nat, |i: int| '0') + d
    } else {
        d
    }
}

fn digit(d: u64) -> (c: char)
    requires
        d < 10,
    ensures
        c == digit_char(d as nat),
{
    if d == 0 { '0' }
    else if d == 1 { '1' }
    else if d == 2 { '2' }
    else if d == 3 { '3' }
    else if d == 4 { '4' }
    else if d == 5 { '5' }
    else if d == 6 { '6' }
    else if d == 7 { '7' }
    else if d == 8 { '8' }
    else { '9' }
}

/// Appends the decimal rendering of `n`.
pub fn push_decimal(s: &mut String, n: u64)
    ensures
        final(s)@ == old(s)@ + decimal(n as nat),
    decreases n,
{
    if n >= 10 {
        push_decimal(s, n / 10);
    }
    push_char(s, digit(n % 10));
}

/// Appends `n` zero-padded to `width` characters.
pub fn push_zero_padded(s: &mut String, n: u64, width: usize)
    ensures
        final(s)@ == old(s)@ + zero_padded(n as nat, width as nat),
{
    let mut digits = String::new();
    push_decimal(&mut digits, n);
    let len = digits.unicode_len();
    let mut k = len;
    let ghost start = s@;
    while k < width
        invariant
            len == decimal(n as nat).len(),
            len <= k,
            k <= width || k == len,
            s@ == start + Seq::new((k - len) as nat, |i: int| '0'),
        decreases width - k,
    {
        push_char(s, '0');
        assert(Seq::new((k + 1 - len) as nat, |i: int| '0') =~= Seq::new((k - len) as nat, |i: int| '0').push('0'));
        k += 1;
    }
    s.append(digits.as_str());
    proof {
        if len < width {
            assert(k == width);
        } else {
            assert(Seq::new((k - len) as nat, |i: int| '0') =~= Seq::<char>::empty());
        }
        assert(s@ =~= start + zero_padded(n as nat, width as nat));
    }
}


// ---------------------------------------------------------------------------
// Prefixes, pieces and tokens
// ---------------------------------------------------------------------------

/// `s` begins with `p`.
pub open spec fn starts_with(s: Seq<char>, p: Seq<char>) -> bool {
    p.len() <= s.len() && s.take(p.len() as int) == p
}

/// Whether `v` begins with `p`.
pub fn chars_start_with(v: &Vec<char>, p: &Vec<char>) -> (r: bool)
    ensures
        r == starts_with(v@, p@),
{
    if p.len() > v.len() {
        return false;
    }
    let r = chars_match_at(v, p, 0);
    proof {
        assert(v@.subrange(0, p@.len() as int) == v@.take(p@.len() as int));
    }
    r
}

/// A new vector holding `v[lo..hi]`.
pub fn sub_chars(v: &Vec<char>, lo: usize, hi: usize) -> (r: Vec<char>)
    requires
        lo <= hi <= v@.len(),
    ensures
        r@ == v@.subrange(lo as int, hi as int),
{
    let mut out: Vec<char> = Vec::new();
    let mut i = lo;
    while i < hi
        invariant
            lo <= i <= hi <= v@.len(),
            out@ == v@.subrange(lo as int, i as int),
        decreases hi - i,
    {
        out.push(v[i]);
        assert(out@ =~= v@.subrange(lo as int, i + 1));
        i += 1;
    }
    out
}

/// `v` trimmed, as a new vector.
pub fn trimmed_chars(v: &Vec<char>) -> (r: Vec<char>)
    ensures
        r@ == trim(v@),
{
    let (lo, hi) = trim_bounds(v);
    sub_chars(v, lo, hi)
}

/// The first index of `c` in `s`, if any.
pub open spec fn index_of(s: Seq<char>, c: char) -> Option<int> {
    if exists|i: int| 0 <= i < s.len() && s[i] == c {
        Some(choose|i: int| 0 <= i < s.len() && s[i] == c && forall|j: int| 0 <= j < i ==> s[j] != c)
    } else {
        None
    }
}

/// The first index of `c` in `v`, if any.
pub fn find_char(v: &Vec<char>, c: char) -> (r: Option<usize>)
    ensures
        match r {
            Some(i) => index_of(v@, c) == Some(i as int),
            None => index_of(v@, c) is None,
        },
        r matches Some(i) ==> i < v@.len() && v@[i as int] == c,
{
    let mut i: usize = 0;
    while i < v.len()
        invariant
            i <= v@.len(),
            forall|j: int| 0 <= j < i ==> v@[j] != c,
        decreases v@.len() - i,
    {
        if v[i] == c {
            proof {
                let w = choose|k: int| 0 <= k < v@.len() && v@[k] == c && forall|j: int| 0 <= j < k ==> v@[j] != c;
                if w < i {
                    assert(v@[w] != c);
                } else if w > i {
                    assert(v@[i as int] != c);
                }
            }
            return Some(i);
        }
        i += 1;
    }
    None
}

/// The whitespace-separated words of `s` (what `split_whitespace` yields).
pub open spec fn words(s: Seq<char>) -> Seq<Seq<char>>
    decreases s.len(),
{
    if s.len() == 0 {
        Seq::empty()
    } else {
        let p = words(s.drop_last());
        let c = s.last();
        if is_white_space(c) {
            p
        } else if s.len() >= 2 && !is_white_space(s[s.len() - 2]) && p.len() > 0 {
            p.update(p.len() - 1, p.last().push(c))
        } else {
            p.push(seq![c])
        }
    }
}

/// The whitespace-separated words of `v`.
pub fn words_of(v: &Vec<char>) -> (r: Vec<Vec<char>>)
    ensures
        r@.len() == words(v@).len(),
        forall|i: int| 0 <= i < r@.len() ==> #[trigger] r@[i]@ == words(v@)[i],
{
    let mut out: Vec<Vec<char>> = Vec::new();
    let mut cur: Vec<char> = Vec::new();
    let mut in_word = false;
    let mut i: usize = 0;
    while i < v.len()
        invariant
            i <= v@.len(),
            in_word == (i > 0 && !is_white_space(v@[i - 1])),
            in_word ==> words(v@.take(i as int)).len() > 0,
            in_word ==> out@.len() + 1 == words(v@.take(i as int)).len(),
            in_word ==> cur@ == words(v@.take(i as int)).last(),
            !in_word ==> out@.len() == words(v@.take(i as int)).len(),
            forall|k: int| 0 <= k < out@.len() ==> #[trigger] out@[k]@ == words(v@.take(i as int))[k],
        decreases v@.len() - i,
    {
        let c = v[i];
        let ghost pre = v@.take(i as int);
        assert(v@.take(i + 1).drop_last() =~= pre);
        assert(v@.take(i + 1).last() == c);
        if char_is_whitespace(c) {
            if in_word {
                let w = cur;
                out.push(w);
                cur = Vec::new();
            }
            in_word = false;
        } else {
            if in_word {
                assert(v@.take(i + 1)[i - 1] == v@[i - 1]);
                cur.push(c);
            } else {
                if i >= 1 {
                    assert(v@.take(i + 1)[i - 1] == v@[i - 1]);
                }
                cur = Vec::new();
                cur.push(c);
                assert(cur@ =~= seq![c]);
            }
            in_word = true;
        }
        i += 1;
    }
    assert(v@.take(v@.len() as int) =~= v@);
    if in_word {
        out.push(cur);
    }
    out
}
/// One step of filtering then mapping a sequence: what the last element
/// adds.
pub proof fn lemma_filter_map_step<A, B>(xs: Seq<A>, p: spec_fn(A) -> bool, f: spec_fn(A) -> B)
    requires
        xs.len() > 0,
    ensures
        xs.filter(p).map_values(f) == if p(xs.last()) {
            xs.drop_last().filter(p).map_values(f).push(f(xs.last()))
        } else {
            xs.drop_last().filter(p).map_values(f)
        },
{
    reveal(Seq::filter);
    assert(xs.filter(p) == if p(xs.last()) {
        xs.drop_last().filter(p).push(xs.last())
    } else {
        xs.drop_last().filter(p)
    });
    if p(xs.last()) {
        assert(xs.filter(p).map_values(f) =~= xs.drop_last().filter(p).map_values(f).push(f(xs.last())));
    }
}

/// Filtering then mapping the empty sequence gives the empty sequence.
pub proof fn lemma_filter_map_empty<A, B>(xs: Seq<A>, p: spec_fn(A) -> bool, f: spec_fn(A) -> B)
    requires
        xs.len() == 0,
    ensures
        xs.filter(p).map_values(f) == Seq::<B>::empty(),
{
    reveal(Seq::filter);
    assert(xs.filter(p).map_values(f) =~= Seq::<B>::empty());
}
/// The value of a string of decimal digits.
pub open spec fn digits_value(ds: Seq<char>) -> int
    decreases ds.len(),
{
    if ds.len() == 0 { 0 } else { 10 * digits_value(ds.drop_last()) + (ds.last() as int - '0' as int) }
}

proof fn lemma_digit_value(k: nat)
    requires
        k < 10,
    ensures
        digit_char(k) as int - '0' as int == k,
        '0' <= digit_char(k) <= '9',
{
}

/// The decimal rendering of any `n` is made of the digits `0`..`9`, has no
/// leading zero (unless it is `0`), and reads back as `n`.
pub proof fn lemma_decimal_reads_back(n: nat)
    ensures
        decimal(n).len() >= 1,
        forall|i: int| 0 <= i < decimal(n).len() ==> '0' <= #[trigger] decimal(n)[i] <= '9',
        n > 0 ==> decimal(n)[0] != '0',
        digits_value(decimal(n)) == n,
    decreases n,
{
    if n < 10 {
        lemma_digit_value(n);
        assert(decimal(n).drop_last() =~= Seq::<char>::empty());
        assert(digits_value(Seq::<char>::empty()) == 0);
        assert(digits_value(decimal(n)) == 10 * digits_value(decimal(n).drop_last()) + (decimal(n).last() as int - '0' as int));
    } else {
        lemma_decimal_reads_back(n / 10);
        lemma_digit_value(n % 10);
        let d = decimal(n / 10);
        assert(decimal(n) == d.push(digit_char(n % 10)));
        assert(decimal(n).drop_last() =~= d);
        assert(decimal(n)[0] == d[0]);
        assert(digits_value(decimal(n)) == 10 * digits_value(d) + (digit_char(n % 10) as int - '0' as int));
        assert(10 * (n / 10) + n % 10 == n);
    }
}

/// Trimming removes white space at both ends and nothing else: the result
/// is a stretch of `s` with only white space before and after it, and it
/// neither starts nor ends with white space.
pub proof fn lemma_trim_exact(s: Seq<char>)
    ensures
        exists|lo: int, hi: int|
            0 <= lo <= hi <= s.len() && trim(s) == s.subrange(lo, hi) && (forall|i: int|
                0 <= i < lo ==> is_white_space(#[trigger] s[i])) && (forall|i: int|
                hi <= i < s.len() ==> is_white_space(#[trigger] s[i])),
        trim(s).len() > 0 ==> !is_white_space(trim(s)[0]) && !is_white_space(trim(s).last()),
{
    lemma_trim_start_exact(s);
    let lo = choose|lo: int|
        0 <= lo <= s.len() && trim_start(s) == s.subrange(lo, s.len() as int) && (forall|i: int|
            0 <= i < lo ==> is_white_space(#[trigger] s[i])) && (trim_start(s).len() > 0 ==> !is_white_space(
            trim_start(s)[0],
        ));
    let t = trim_start(s);
    lemma_trim_end_exact(t);
    let k = choose|k: int|
        0 <= k <= t.len() && trim_end(t) == t.subrange(0, k) && (forall|i: int|
            k <= i < t.len() ==> is_white_space(#[trigger] t[i])) && (trim_end(t).len() > 0 ==> !is_white_space(
            trim_end(t).last(),
        ));
    let hi = lo + k;
    assert(trim(s) =~= s.subrange(lo, hi));
    assert forall|i: int| hi <= i < s.len() implies is_white_space(#[trigger] s[i]) by {
        assert(t[i - lo] == s[i]);
    }
    if trim(s).len() > 0 {
        assert(trim(s)[0] == t[0]);
    }
}

proof fn lemma_trim_start_exact(s: Seq<char>)
    ensures
        exists|lo: int|
            0 <= lo <= s.len() && trim_start(s) == s.subrange(lo, s.len() as int) && (forall|i: int|
                0 <= i < lo ==> is_white_space(#[trigger] s[i])) && (trim_start(s).len() > 0
                ==> !is_white_space(trim_start(s)[0])),
    decreases s.len(),
{
    if s.len() > 0 && is_white_space(s[0]) {
        let r = s.drop_first();
        lemma_trim_start_exact(r);
        let lo = choose|lo: int|
            0 <= lo <= r.len() && trim_start(r) == r.subrange(lo, r.len() as int) && (forall|i: int|
                0 <= i < lo ==> is_white_space(#[trigger] r[i])) && (trim_start(r).len() > 0
                ==> !is_white_space(trim_start(r)[0]));
        assert(s.subrange(lo + 1, s.len() as int) =~= r.subrange(lo, r.len() as int));
        assert forall|i: int| 0 <= i < lo + 1 implies is_white_space(#[trigger] s[i]) by {
            if i > 0 {
                assert(s[i] == r[i - 1]);
            }
        }
        assert(0 <= lo + 1 <= s.len() && trim_start(s) == s.subrange(lo + 1, s.len() as int));
    } else {
        assert(s.subrange(0, s.len() as int) =~= s);
    }
}

proof fn lemma_trim_end_exact(s: Seq<char>)
    ensures
        exists|k: int|
            0 <= k <= s.len() && trim_end(s) == s.subrange(0, k) && (forall|i: int|
                k <= i < s.len() ==> is_white_space(#[trigger] s[i])) && (trim_end(s).len() > 0
                ==> !is_white_space(trim_end(s).last())),
    decreases s.len(),
{
    if s.len() > 0 && is_white_space(s.last()) {
        let r = s.drop_last();
        lemma_trim_end_exact(r);
        let k = choose|k: int|
            0 <= k <= r.len() && trim_end(r) == r.subrange(0, k) && (forall|i: int|
                k <= i < r.len() ==> is_white_space(#[trigger] r[i])) && (trim_end(r).len() > 0
                ==> !is_white_space(trim_end(r).last()));
        assert(s.subrange(0, k) =~= r.subrange(0, k));
        assert forall|i: int| k <= i < s.len() implies is_white_space(#[trigger] s[i]) by {
            if i < s.len() - 1 {
                assert(s[i] == r[i]);
            }
        }
        assert(0 <= k <= s.len() && trim_end(s) == s.subrange(0, k));
    } else {
        assert(s.subrange(0, s.len() as int) =~= s);
    }
}
/// Pieces joined with `sep` between them.
pub open spec fn join_by(ps: Seq<Seq<char>>, sep: char) -> Seq<char>
    decreases ps.len(),
{
    if ps.len() <= 1 {
        if ps.len() == 1 { ps[0] } else { Seq::empty() }
    } else {
        join_by(ps.drop_last(), sep) + seq![sep] + ps.last()
    }
}

proof fn lemma_join_push_char(ps: Seq<Seq<char>>, sep: char, x: char)
    requires
        ps.len() >= 1,
    ensures
        join_by(ps.update(ps.len() - 1, ps.last().push(x)), sep) == join_by(ps, sep).push(x),
{
    let q = ps.update(ps.len() - 1, ps.last().push(x));
    if ps.len() > 1 {
        assert(q.drop_last() =~= ps.drop_last());
        assert(join_by(q, sep) =~= join_by(ps, sep).push(x));
    }
}

/// Splitting at `sep` and joining with `sep` gives the text back, and no
/// piece holds `sep`, nor any character absent from the text.
pub proof fn lemma_split_join(s: Seq<char>, sep: char)
    ensures
        join_by(split_on(s, sep), sep) == s,
        forall|i: int, j: int|
            0 <= i < split_on(s, sep).len() && 0 <= j < split_on(s, sep)[i].len() ==> s.contains(
                #[trigger] split_on(s, sep)[i][j],
            ) && split_on(s, sep)[i][j] != sep,
    decreases s.len(),
{
    lemma_split_on_nonempty(s, sep);
    if s.len() > 0 {
        let d = s.drop_last();
        let x = s.last();
        let p = split_on(d, sep);
        lemma_split_join(d, sep);
        lemma_split_on_nonempty(d, sep);
        assert(d.push(x) =~= s);
        if x == sep {
            let q = p.push(Seq::<char>::empty());
            assert(q.drop_last() =~= p);
            assert(join_by(q, sep) =~= s);
            assert forall|i: int, j: int| 0 <= i < q.len() && 0 <= j < q[i].len() implies s.contains(
                #[trigger] q[i][j],
            ) && q[i][j] != sep by {
                assert(q[i] == p[i]);
                let k = choose|k: int| 0 <= k < d.len() && d[k] == p[i][j];
                assert(s[k] == d[k]);
            }
        } else {
            let q = p.update(p.len() - 1, p.last().push(x));
            lemma_join_push_char(p, sep, x);
            assert forall|i: int, j: int| 0 <= i < q.len() && 0 <= j < q[i].len() implies s.contains(
                #[trigger] q[i][j],
            ) && q[i][j] != sep by {
                if i == p.len() - 1 && j == p.last().len() {
                    assert(q[i][j] == x);
                    assert(s[s.len() - 1] == x);
                } else {
                    assert(q[i][j] == p[i][j]);
                    let k = choose|k: int| 0 <= k < d.len() && d[k] == p[i][j];
                    assert(s[k] == d[k]);
                }
            }
        }
    }
}

/// For text without carriage returns, the lines hold no line break, and
/// joining them with `\n` (and the final `\n`, if the text ends with one)
/// gives the text back.
pub proof fn lemma_lines_join(s: Seq<char>)
    requires
        !s.contains('\r'),
    ensures
        forall|i: int, j: int| 0 <= i < lines(s).len() && 0 <= j < lines(s)[i].len() ==> #[trigger] lines(s)[i][j] != '\n',
        join_by(lines(s), '\n') + (if s.len() > 0 && s.last() == '\n' { seq!['\n'] } else { Seq::<char>::empty() }) == s,
{
    let p = split_on(s, '\n');
    lemma_split_join(s, '\n');
    lemma_split_on_nonempty(s, '\n');
    assert forall|i: int| 0 <= i < p.len() implies strip_cr(#[trigger] p[i]) == p[i] by {
        if p[i].len() > 0 && p[i].last() == '\r' {
            assert(s.contains(p[i][p[i].len() - 1]));
        }
    }
    let k = if p.last().len() == 0 { p.len() - 1 } else { p.len() as int };
    assert(lines(s) =~= p.take(k));
    if p.last().len() == 0 {
        if p.len() == 1 {
            assert(s.len() == 0);
            assert(join_by(lines(s), '\n') =~= Seq::<char>::empty());
        } else {
            assert(p.take(k) =~= p.drop_last());
            assert(s =~= join_by(p.drop_last(), '\n') + seq!['\n'] + p.last());
            assert(p.last() =~= Seq::<char>::empty());
            assert(s.last() == '\n');
            assert(join_by(lines(s), '\n') + seq!['\n'] =~= s);
        }
    } else {
        assert(p.take(k) =~= p);
        let l = p.last();
        if p.len() == 1 {
            assert(s == l);
        } else {
            assert(s =~= join_by(p.drop_last(), '\n') + seq!['\n'] + l);
        }
        assert(s.last() == l[l.len() - 1]);
        assert(l[l.len() - 1] != '\n');
        assert(join_by(lines(s), '\n') + Seq::<char>::empty() =~= s);
    }
}
} // verus!
