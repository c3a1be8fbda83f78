//! Character-level helpers on which the normalizers are built.
//!
//! Text is modelled as `Seq<char>`. Executable code works on `Vec<char>` and
//! converts from and to `String` at the edges.

use vstd::prelude::*;
use vstd::std_specs::iter::IteratorSpec;

verus! {

// ---------------------------------------------------------------------------
// Conversions between strings and character vectors
// ---------------------------------------------------------------------------

/// Appends one character to a string.
///
/// Wraps `String::push`, which the standard library documents as appending
/// the given `char` to the end of the string.
#[verifier::external_body]
pub(crate) fn push_char(s: &mut String, c: char)
    ensures
        final(s)@ == old(s)@.push(c),
{
    s.push(c)
}

/// The characters of `s`, in order.
pub fn chars_of(s: &str) -> (out: Vec<char>)
    ensures
        out@ == s@,
{
    let mut out: Vec<char> = Vec::new();
    for c in it: s.chars()
        invariant
            out@ == s@.subrange(0, it.index() as int),
            it.seq() == s@,
    {
        out.push(c);
    }
    out
}

/// The string made of the characters of `chars`, in order.
pub fn string_of(chars: &Vec<char>) -> (out: String)
    ensures
        out@ == chars@,
{
    let mut out = String::new();
    let mut i: usize = 0;
    while i < chars.len()
        invariant
            i <= chars.len(),
            out@ == chars@.subrange(0, i as int),
        decreases chars.len() - i,
    {
        push_char(&mut out, chars[i]);
        i += 1;
    }
    out
}

/// A copy of `chars[from..to]`.
pub fn slice_of(chars: &Vec<char>, from: usize, to: usize) -> (out: Vec<char>)
    requires
        from <= to <= chars.len(),
    ensures
        out@ == chars@.subrange(from as int, to as int),
{
    let mut out: Vec<char> = Vec::new();
    let mut i: usize = from;
    while i < to
        invariant
            from <= i <= to <= chars.len(),
            out@ == chars@.subrange(from as int, i as int),
        decreases to - i,
    {
        out.push(chars[i]);
        i += 1;
    }
    out
}

/// Whether two character vectors hold the same text.
pub fn same_text(a: &Vec<char>, b: &Vec<char>) -> (eq: bool)
    ensures
        eq == (a@ == b@),
{
    if a.len() != b.len() {
        return false;
    }
    let mut i: usize = 0;
    while i < a.len()
        invariant
            i <= a.len(),
            a.len() == b.len(),
            a@.subrange(0, i as int) == b@.subrange(0, i as int),
        decreases a.len() - i,
    {
        if a[i] != b[i] {
            return false;
        }
        assert(a@.subrange(0, i + 1) == a@.subrange(0, i as int).push(a@[i as int]));
        assert(b@.subrange(0, i + 1) == b@.subrange(0, i as int).push(b@[i as int]));
        i += 1;
    }
    assert(a@ == a@.subrange(0, a.len() as int));
    assert(b@ == b@.subrange(0, b.len() as int));
    true
}

/// Whether `text` is exactly the string `word`.
pub fn is_word(text: &Vec<char>, word: &str) -> (eq: bool)
    ensures
        eq == (text@ == word@),
{
    let w = chars_of(word);
    same_text(text, &w)
}

/// Whether two strings hold the same text.
pub fn text_equals(a: &str, b: &str) -> (eq: bool)
    ensures
        eq == (a@ == b@),
{
    same_text(&chars_of(a), &chars_of(b))
}

/// Whether `c` occurs in `text`.
pub fn has_char(text: &Vec<char>, c: char) -> (found: bool)
    ensures
        found == text@.contains(c),
{
    let mut i: usize = 0;
    while i < text.len()
        invariant
            i <= text.len(),
            forall|j: int| 0 <= j < i ==> text@[j] != c,
        decreases text.len() - i,
    {
        if text[i] == c {
            return true;
        }
        i += 1;
    }
    false
}

// ---------------------------------------------------------------------------
// Whitespace
// ---------------------------------------------------------------------------

/// The white-space characters of Unicode (`White_Space`).
pub open spec fn is_whitespace(c: char) -> bool {
    let u = c as u32;
    ||| 0x09 <= u <= 0x0D
    ||| u == 0x20
    ||| u == 0x85
    ||| u == 0xA0
    ||| u == 0x1680
    ||| 0x2000 <= u <= 0x200A
    ||| u == 0x2028
    ||| u == 0x2029
    ||| u == 0x202F
    ||| u == 0x205F
    ||| u == 0x3000
}

/// Executable form of [`is_whitespace`].
pub fn is_whitespace_char(c: char) -> (ws: bool)
    ensures
        ws == is_whitespace(c),
{
    let u: u32 = c as u32;
    (0x09 <= u && u <= 0x0D) || u == 0x20 || u == 0x85 || u == 0xA0 || u == 0x1680 || (0x2000 <= u
        && u <= 0x200A) || u == 0x2028 || u == 0x2029 || u == 0x202F || u == 0x205F || u == 0x3000
}

/// `s` without its leading whitespace.
pub open spec fn trim_start(s: Seq<char>) -> Seq<char>
    decreases s.len(),
{
    if s.len() > 0 && is_whitespace(s.first()) {
        trim_start(s.drop_first())
    } else {
        s
    }
}

/// `s` without its trailing whitespace.
pub open spec fn trim_end(s: Seq<char>) -> Seq<char>
    decreases s.len(),
{
    if s.len() > 0 && is_whitespace(s.last()) {
        trim_end(s.drop_last())
    } else {
        s
    }
}

/// `s` without leading and trailing whitespace.
pub open spec fn trimmed(s: Seq<char>) -> Seq<char> {
    trim_end(trim_start(s))
}

/// A text that neither starts nor ends with whitespace.
pub open spec fn is_tight(s: Seq<char>) -> bool {
    s.len() > 0 ==> !is_whitespace(s.first()) && !is_whitespace(s.last())
}

/// Skipping `k` leading whitespace characters does not change `trim_start`.
pub proof fn lemma_trim_start_skip(s: Seq<char>, k: int)
    requires
        0 <= k <= s.len(),
        forall|j: int| 0 <= j < k ==> is_whitespace(s[j]),
    ensures
        trim_start(s) == trim_start(s.subrange(k, s.len() as int)),
    decreases k,
{
    if k == 0 {
        assert(s.subrange(0, s.len() as int) == s);
    } else {
        let t = s.drop_first();
        assert forall|j: int| 0 <= j < k - 1 implies is_whitespace(t[j]) by {
            assert(t[j] == s[j + 1]);
        }
        lemma_trim_start_skip(t, k - 1);
        assert(t.subrange(k - 1, t.len() as int) == s.subrange(k, s.len() as int));
    }
}

/// Dropping `s.len() - k` trailing whitespace characters does not change `trim_end`.
pub proof fn lemma_trim_end_take(s: Seq<char>, k: int)
    requires
        0 <= k <= s.len(),
        forall|j: int| k <= j < s.len() ==> is_whitespace(s[j]),
    ensures
        trim_end(s) == trim_end(s.subrange(0, k)),
    decreases s.len() - k,
{
    if k == s.len() {
        assert(s.subrange(0, s.len() as int) == s);
    } else {
        let t = s.drop_last();
        lemma_trim_end_take(t, k);
        assert(t.subrange(0, k) == s.subrange(0, k));
    }
}

/// What `trimmed` returns: a tight slice of `s`, with whitespace alone on
/// either side of it.
pub proof fn lemma_trimmed_is_slice(s: Seq<char>) -> (bounds: (int, int))
    ensures
        0 <= bounds.0 <= bounds.1 <= s.len(),
        trimmed(s) == s.subrange(bounds.0, bounds.1),
        is_tight(trimmed(s)),
        forall|j: int| 0 <= j < bounds.0 ==> is_whitespace(s[j]),
        forall|j: int| bounds.1 <= j < s.len() ==> is_whitespace(s[j]),
    decreases s.len(),
{
    if s.len() > 0 && is_whitespace(s.first()) {
        let t = s.drop_first();
        let b = lemma_trimmed_is_slice(t);
        assert(t.subrange(b.0, b.1) == s.subrange(b.0 + 1, b.1 + 1));
        assert forall|j: int| 0 <= j < b.0 + 1 implies is_whitespace(s[j]) by {
            if j > 0 {
                assert(s[j] == t[j - 1]);
            }
        }
        assert forall|j: int| b.1 + 1 <= j < s.len() implies is_whitespace(s[j]) by {
            assert(s[j] == t[j - 1]);
        }
        (b.0 + 1, b.1 + 1)
    } else {
        let e = lemma_trim_end_is_prefix(s);
        assert(s.subrange(0, e) == trim_end(s));
        (0, e)
    }
}

/// What `trim_end` returns: a prefix of `s` that does not end with
/// whitespace, with whitespace alone after it.
pub proof fn lemma_trim_end_is_prefix(s: Seq<char>) -> (end: int)
    ensures
        0 <= end <= s.len(),
        trim_end(s) == s.subrange(0, end),
        end > 0 ==> !is_whitespace(s[end - 1]),
        forall|j: int| end <= j < s.len() ==> is_whitespace(s[j]),
    decreases s.len(),
{
    if s.len() > 0 && is_whitespace(s.last()) {
        let t = s.drop_last();
        let e = lemma_trim_end_is_prefix(t);
        assert(t.subrange(0, e) == s.subrange(0, e));
        assert forall|j: int| e <= j < s.len() implies is_whitespace(s[j]) by {
            if j < t.len() {
                assert(s[j] == t[j]);
            }
        }
        e
    } else {
        assert(s.subrange(0, s.len() as int) == s);
        s.len() as int
    }
}

/// Trimming a tight text changes nothing.
pub proof fn lemma_trimmed_of_tight(s: Seq<char>)
    requires
        is_tight(s),
    ensures
        trimmed(s) == s,
{
}

/// `text` without leading and trailing whitespace.
pub fn trim(text: &Vec<char>) -> (out: Vec<char>)
    ensures
        out@ == trimmed(text@),
{
    let n = text.len();
    let mut start: usize = 0;
    while start < n && is_whitespace_char(text[start])
        invariant
            start <= n == text.len(),
            forall|j: int| 0 <= j < start ==> is_whitespace(text@[j]),
        decreases n - start,
    {
        start += 1;
    }
    let mut end: usize = n;
    while end > start && is_whitespace_char(text[end - 1])
        invariant
            start <= end <= n == text.len(),
            forall|j: int| end <= j < n ==> is_whitespace(text@[j]),
        decreases end,
    {
        end -= 1;
    }
    proof {
        let s = text@;
        let rest = s.subrange(start as int, n as int);
        lemma_trim_start_skip(s, start as int);
        if start < n {
            assert(rest.first() == s[start as int]);
        }
        assert(trim_start(s) == rest);
        assert forall|j: int| end - start <= j < rest.len() implies is_whitespace(rest[j]) by {
            assert(rest[j] == s[j + start]);
        }
        lemma_trim_end_take(rest, end - start);
        let mid = rest.subrange(0, end - start);
        assert(mid == s.subrange(start as int, end as int));
        if end > start {
            assert(mid.last() == s[end - 1]);
        }
        assert(trim_end(mid) == mid);
    }
    slice_of(text, start, end)
}

// ---------------------------------------------------------------------------
// Letter case
// ---------------------------------------------------------------------------

/// The lower-case form of an ASCII letter; any other character unchanged.
pub open spec fn ascii_lower_char(c: char) -> char {
    if 'A' <= c <= 'Z' {
        ((c as u8) + 32) as char
    } else {
        c
    }
}

/// The upper-case form of an ASCII letter; any other character unchanged.
pub open spec fn ascii_upper_char(c: char) -> char {
    if 'a' <= c <= 'z' {
        ((c as u8) - 32) as char
    } else {
        c
    }
}

/// `s` with each character replaced by [`ascii_lower_char`] of it.
pub open spec fn ascii_lowercase(s: Seq<char>) -> Seq<char> {
    Seq::new(s.len(), |i: int| ascii_lower_char(s[i]))
}

/// `s` with each character replaced by [`ascii_upper_char`] of it.
pub open spec fn ascii_uppercase(s: Seq<char>) -> Seq<char> {
    Seq::new(s.len(), |i: int| ascii_upper_char(s[i]))
}

/// What `str::to_lowercase` returns for the text `s`.
pub uninterp spec fn unicode_lowercase(s: Seq<char>) -> Seq<char>;

/// What `str::to_uppercase` returns for the text `s`.
pub uninterp spec fn unicode_uppercase(s: Seq<char>) -> Seq<char>;

/// A text made of ASCII characters only.
pub open spec fn is_ascii(s: Seq<char>) -> bool {
    forall|i: int| 0 <= i < s.len() ==> (#[trigger] s[i] as u32) < 0x80
}

/// The lower-case form of a text: letter by letter where the text is ASCII,
/// by Unicode's mapping where it is not.
pub open spec fn lowercase(s: Seq<char>) -> Seq<char> {
    if is_ascii(s) {
        ascii_lowercase(s)
    } else {
        unicode_lowercase(s)
    }
}

/// The upper-case form of a text: letter by letter where the text is ASCII,
/// by Unicode's mapping where it is not.
pub open spec fn uppercase(s: Seq<char>) -> Seq<char> {
    if is_ascii(s) {
        ascii_uppercase(s)
    } else {
        unicode_uppercase(s)
    }
}

/// Unicode lower-casing of a whole string.
///
/// Wraps `str::to_lowercase`. The result is a function of the text alone; it
/// is named, not stated.
#[verifier::external_body]
fn std_to_lowercase(s: &str) -> (out: String)
    ensures
        out@ == unicode_lowercase(s@),
{
    s.to_lowercase()
}

/// Unicode upper-casing of a whole string.
///
/// Wraps `str::to_uppercase`. The result is a function of the text alone; it
/// is named, not stated.
#[verifier::external_body]
fn std_to_uppercase(s: &str) -> (out: String)
    ensures
        out@ == unicode_uppercase(s@),
{
    s.to_uppercase()
}

/// Whether every character of `text` is ASCII.
pub fn is_ascii_text(text: &Vec<char>) -> (ascii: bool)
    ensures
        ascii == is_ascii(text@),
{
    let mut i: usize = 0;
    while i < text.len()
        invariant
            i <= text.len(),
            forall|j: int| 0 <= j < i ==> (#[trigger] text@[j] as u32) < 0x80,
        decreases text.len() - i,
    {
        let c = text[i];
        let u: u32 = c as u32;
        if u >= 0x80 {
            return false;
        }
        i += 1;
    }
    true
}

/// Executable form of [`ascii_lower_char`].
pub fn to_ascii_lower_char(c: char) -> (out: char)
    ensures
        out == ascii_lower_char(c),
{
    let u: u32 = c as u32;
    if 0x41 <= u && u <= 0x5A {
        let b: u8 = u as u8;
        (b + 32) as char
    } else {
        c
    }
}

/// Executable form of [`ascii_upper_char`].
pub fn to_ascii_upper_char(c: char) -> (out: char)
    ensures
        out == ascii_upper_char(c),
{
    let u: u32 = c as u32;
    if 0x61 <= u && u <= 0x7A {
        let b: u8 = u as u8;
        (b - 32) as char
    } else {
        c
    }
}

/// The lower-case form of `text`.
pub fn to_lowercase(text: &Vec<char>) -> (out: Vec<char>)
    ensures
        out@ == lowercase(text@),
{
    if is_ascii_text(text) {
        let mut out: Vec<char> = Vec::new();
        let mut i: usize = 0;
        while i < text.len()
            invariant
                i <= text.len(),
                out@ == ascii_lowercase(text@).subrange(0, i as int),
            decreases text.len() - i,
        {
            out.push(to_ascii_lower_char(text[i]));
            i += 1;
        }
        out
    } else {
        let s = string_of(text);
        let lowered = std_to_lowercase(s.as_str());
        chars_of(lowered.as_str())
    }
}

/// The upper-case form of `text`.
pub fn to_uppercase(text: &Vec<char>) -> (out: Vec<char>)
    ensures
        out@ == uppercase(text@),
{
    if is_ascii_text(text) {
        let mut out: Vec<char> = Vec::new();
        let mut i: usize = 0;
        while i < text.len()
            invariant
                i <= text.len(),
                out@ == ascii_uppercase(text@).subrange(0, i as int),
            decreases text.len() - i,
        {
            out.push(to_ascii_upper_char(text[i]));
            i += 1;
        }
        out
    } else {
        let s = string_of(text);
        let raised = std_to_uppercase(s.as_str());
        chars_of(raised.as_str())
    }
}

} // verus!
