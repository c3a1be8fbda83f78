//! Decimal literals: their grammar, their exact value and their canonical
//! form.
//!
//! A literal is read as the rational number `numerator / 10^scale`. Bounds
//! and precision are decided on these exact values.

use vstd::prelude::*;
use crate::error::{CanonError, Failure};
use crate::text::{slice_of, string_of};

verus! {

// ---------------------------------------------------------------------------
// Digits and their values
// ---------------------------------------------------------------------------

/// An ASCII decimal digit.
pub open spec fn is_digit(c: char) -> bool {
    '0' <= c <= '9'
}

/// The value of a decimal digit.
pub open spec fn digit_value(c: char) -> nat {
    (c as u32 - '0' as u32) as nat
}

/// A text of decimal digits alone.
pub open spec fn all_digits(s: Seq<char>) -> bool {
    forall|i: int| 0 <= i < s.len() ==> is_digit(#[trigger] s[i])
}

/// The number that a text of decimal digits writes, most significant digit
/// first. The empty text writes 0.
pub open spec fn digits_value(s: Seq<char>) -> nat
    decreases s.len(),
{
    if s.len() == 0 {
        0
    } else {
        digits_value(s.drop_last()) * 10 + digit_value(s.last())
    }
}

/// 10 to the power `n`.
pub open spec fn pow10(n: nat) -> nat
    decreases n,
{
    if n == 0 {
        1
    } else {
        10 * pow10((n - 1) as nat)
    }
}

/// `k` zero digits.
pub open spec fn zeros(k: nat) -> Seq<char> {
    Seq::new(k, |i: int| '0')
}

/// The digit that writes `d`, for `d` below 10.
pub open spec fn digit_char(d: nat) -> char {
    (('0' as u32) + d) as char
}

/// The decimal writing of a natural number, without leading zeros.
pub open spec fn nat_text(n: nat) -> Seq<char>
    decreases n,
{
    if n < 10 {
        seq![digit_char(n)]
    } else {
        nat_text(n / 10).push(digit_char(n % 10))
    }
}

/// The decimal writing of an integer: a `-` before a negative one.
pub open spec fn int_text(i: int) -> Seq<char> {
    if i < 0 {
        seq!['-'] + nat_text((-i) as nat)
    } else {
        nat_text(i as nat)
    }
}

// ---------------------------------------------------------------------------
// The grammar and the value of a literal
// ---------------------------------------------------------------------------

/// The index of the first `.` of `s`, or the length of `s` where it has none.
pub open spec fn point_index(s: Seq<char>) -> int
    decreases s.len(),
{
    if s.len() == 0 || s.first() == '.' {
        0
    } else {
        1 + point_index(s.drop_first())
    }
}

/// What stands before the first `.`.
pub open spec fn integer_digits(s: Seq<char>) -> Seq<char> {
    s.subrange(0, point_index(s))
}

/// What stands after the first `.`; empty where there is none.
pub open spec fn fraction_digits(s: Seq<char>) -> Seq<char> {
    if point_index(s) < s.len() {
        s.subrange(point_index(s) + 1, s.len() as int)
    } else {
        Seq::empty()
    }
}

/// A plain decimal literal: digits, optionally a `.` and digits, with at
/// least one digit in all. No sign, no exponent.
pub open spec fn is_plain_decimal(s: Seq<char>) -> bool {
    &&& all_digits(integer_digits(s))
    &&& all_digits(fraction_digits(s))
    &&& integer_digits(s).len() + fraction_digits(s).len() > 0
}

/// A literal that starts with a zero that is neither the whole literal nor
/// followed by the point.
pub open spec fn has_leading_zero(s: Seq<char>) -> bool {
    s.len() > 1 && s[0] == '0' && s[1] != '.'
}

/// The literal's digits read as one integer: its value times `10^scale`.
pub open spec fn numerator(s: Seq<char>) -> nat {
    digits_value(integer_digits(s) + fraction_digits(s))
}

/// The number of fractional digits of the literal.
pub open spec fn scale(s: Seq<char>) -> nat {
    fraction_digits(s).len()
}

/// How one number stands to another.
#[derive(Clone, Copy, Debug, PartialEq, Eq, Structural)]
pub enum Rank {
    Below,
    Level,
    Above,
}

/// How the integer `x` stands to the integer `y`.
pub open spec fn rank_of(x: int, y: int) -> Rank {
    if x < y {
        Rank::Below
    } else if x == y {
        Rank::Level
    } else {
        Rank::Above
    }
}

/// How the value of the literal `a` stands to the value of the literal `b`:
/// the two fractions are compared by cross-multiplication.
pub open spec fn decimal_rank(a: Seq<char>, b: Seq<char>) -> Rank {
    rank_of(
        (numerator(a) * pow10(scale(b))) as int,
        (numerator(b) * pow10(scale(a))) as int,
    )
}

/// `s` without its trailing zero digits.
pub open spec fn strip_trailing_zeros(s: Seq<char>) -> Seq<char>
    decreases s.len(),
{
    if s.len() > 0 && s.last() == '0' {
        strip_trailing_zeros(s.drop_last())
    } else {
        s
    }
}

/// The canonical writing of a plain decimal literal: the integer digits (a
/// single `0` where there are none), then, where a fractional digit other
/// than a trailing zero remains, the point and the fractional digits without
/// their trailing zeros.
pub open spec fn canonical_decimal(s: Seq<char>) -> Seq<char> {
    let head = if integer_digits(s).len() == 0 {
        seq!['0']
    } else {
        integer_digits(s)
    };
    let tail = strip_trailing_zeros(fraction_digits(s));
    if tail.len() == 0 {
        head
    } else {
        head + seq!['.'] + tail
    }
}

/// The decimal normalizer on a literal: the canonical writing of `s`, or the
/// reason why `s` is rejected.
///
/// The checks come in this order: the grammar and the leading zeros, the
/// bounds (both inclusive), the number of fractional digits.
pub open spec fn normalized_decimal(s: Seq<char>, min: Seq<char>, max: Seq<char>, precision: nat)
    -> Result<Seq<char>, Failure> {
    if !is_plain_decimal(s) || has_leading_zero(s) {
        Err(Failure::MalformedDecimal { literal: s })
    } else if decimal_rank(s, min) == Rank::Below || decimal_rank(s, max) == Rank::Above {
        Err(Failure::OutOfRange { literal: s })
    } else if scale(s) > precision {
        Err(Failure::PrecisionExceeded { literal: s })
    } else {
        Ok(canonical_decimal(s))
    }
}

// ---------------------------------------------------------------------------
// Lemmas on digits
// ---------------------------------------------------------------------------

pub proof fn lemma_pow10_positive(n: nat)
    ensures
        pow10(n) > 0,
    decreases n,
{
    if n > 0 {
        lemma_pow10_positive((n - 1) as nat);
    }
}

pub proof fn lemma_pow10_adds(m: nat, n: nat)
    ensures
        pow10(m + n) == pow10(m) * pow10(n),
    decreases m,
{
    if m == 0 {
        assert(pow10(0) == 1);
        assert(pow10(n) == 1 * pow10(n));
    } else {
        lemma_pow10_adds((m - 1) as nat, n);
        let a = pow10((m - 1) as nat);
        let b = pow10(n);
        assert(pow10(m + n) == 10 * pow10((m + n - 1) as nat));
        assert(10 * (a * b) == (10 * a) * b) by (nonlinear_arith);
    }
}

/// Scaling both sides by the same positive factor keeps their rank.
pub proof fn lemma_rank_scaled(x: int, y: int, p: int)
    requires
        p > 0,
    ensures
        rank_of(x * p, y * p) == rank_of(x, y),
{
    assert(x < y ==> x * p < y * p) by (nonlinear_arith)
        requires
            p > 0,
    ;
    assert(x > y ==> x * p > y * p) by (nonlinear_arith)
        requires
            p > 0,
    ;
}

/// Zero digits write 0.
pub proof fn lemma_zeros_value(k: nat)
    ensures
        digits_value(zeros(k)) == 0,
    decreases k,
{
    if k > 0 {
        assert(zeros(k).drop_last() == zeros((k - 1) as nat));
        lemma_zeros_value((k - 1) as nat);
    }
}

/// Leading zeros do not change the number written.
pub proof fn lemma_leading_zeros(k: nat, d: Seq<char>)
    ensures
        digits_value(zeros(k) + d) == digits_value(d),
    decreases d.len(),
{
    if d.len() == 0 {
        assert(zeros(k) + d == zeros(k));
        lemma_zeros_value(k);
    } else {
        assert((zeros(k) + d).drop_last() == zeros(k) + d.drop_last());
        lemma_leading_zeros(k, d.drop_last());
    }
}

/// `k` trailing zeros multiply the number written by `10^k`.
pub proof fn lemma_trailing_zeros(d: Seq<char>, k: nat)
    ensures
        digits_value(d + zeros(k)) == digits_value(d) * pow10(k),
    decreases k,
{
    if k == 0 {
        assert(d + zeros(0) == d);
        assert(pow10(0) == 1);
    } else {
        let j = (k - 1) as nat;
        let whole = d + zeros(k);
        assert(whole.drop_last() == d + zeros(j));
        assert(whole.last() == '0');
        lemma_trailing_zeros(d, j);
        let v = digits_value(d) as int;
        let p = pow10(j) as int;
        assert(digits_value(whole) == digits_value(whole.drop_last()) * 10 + digit_value('0'));
        assert(pow10(k) == 10 * pow10(j));
        assert((v * p) * 10 == v * (10 * p)) by (nonlinear_arith);
    }
}

/// What `strip_trailing_zeros` removes is zeros, and what it leaves does not
/// end in a zero.
pub proof fn lemma_strip_trailing_zeros(s: Seq<char>) -> (k: nat)
    ensures
        k <= s.len(),
        s == strip_trailing_zeros(s) + zeros(k),
        strip_trailing_zeros(s) == s.subrange(0, s.len() - k),
        strip_trailing_zeros(s).len() > 0 ==> strip_trailing_zeros(s).last() != '0',
    decreases s.len(),
{
    if s.len() > 0 && s.last() == '0' {
        let j = lemma_strip_trailing_zeros(s.drop_last());
        let t = strip_trailing_zeros(s);
        assert(s =~= s.drop_last().push('0'));
        assert(zeros(j + 1) =~= zeros(j).push('0'));
        assert(s =~= t + zeros(j + 1));
        assert(t =~= s.subrange(0, s.len() - (j + 1)));
        j + 1
    } else {
        assert(s =~= s + zeros(0));
        assert(s =~= s.subrange(0, s.len() as int));
        0
    }
}

/// Where the first point of a text stands.
pub proof fn lemma_point_index(s: Seq<char>)
    ensures
        0 <= point_index(s) <= s.len(),
        forall|i: int| 0 <= i < point_index(s) ==> #[trigger] s[i] != '.',
        point_index(s) < s.len() ==> s[point_index(s)] == '.',
    decreases s.len(),
{
    if s.len() == 0 || s.first() == '.' {
    } else {
        let t = s.drop_first();
        lemma_point_index(t);
        assert forall|i: int| 0 <= i < point_index(s) implies #[trigger] s[i] != '.' by {
            if i > 0 {
                assert(s[i] == t[i - 1]);
            }
        }
        if point_index(s) < s.len() {
            assert(s[point_index(s)] == t[point_index(t)]);
        }
    }
}

/// The first point is where no earlier character is a point.
pub proof fn lemma_point_index_is(s: Seq<char>, p: int)
    requires
        0 <= p <= s.len(),
        forall|i: int| 0 <= i < p ==> #[trigger] s[i] != '.',
        p < s.len() ==> s[p] == '.',
    ensures
        point_index(s) == p,
{
    lemma_point_index(s);
    let q = point_index(s);
    if q < p {
        assert(s[q] == '.');
    } else if p < q {
        assert(s[p] != '.');
    }
}

/// The canonical writing is itself a plain decimal literal without a leading
/// zero, it writes the same number, and it is its own canonical writing.
pub proof fn lemma_canonical_decimal(s: Seq<char>)
    requires
        is_plain_decimal(s),
        !has_leading_zero(s),
    ensures
        is_plain_decimal(canonical_decimal(s)),
        !has_leading_zero(canonical_decimal(s)),
        decimal_rank(canonical_decimal(s), s) == Rank::Level,
        scale(canonical_decimal(s)) <= scale(s),
        canonical_decimal(canonical_decimal(s)) == canonical_decimal(s),
{
    lemma_point_index(s);
    let ip = integer_digits(s);
    let fp = fraction_digits(s);
    let head = if ip.len() == 0 {
        seq!['0']
    } else {
        ip
    };
    let k = lemma_strip_trailing_zeros(fp);
    let tail = strip_trailing_zeros(fp);
    let c = canonical_decimal(s);
    assert(all_digits(head)) by {
        assert forall|i: int| 0 <= i < head.len() implies is_digit(#[trigger] head[i]) by {
            if ip.len() > 0 {
                assert(head[i] == ip[i]);
            }
        }
    }
    assert(all_digits(tail)) by {
        assert forall|i: int| 0 <= i < tail.len() implies is_digit(#[trigger] tail[i]) by {
            assert(tail[i] == fp[i]);
        }
    }
    // how the canonical writing parses
    if tail.len() == 0 {
        assert(c == head);
        assert forall|i: int| 0 <= i < c.len() implies #[trigger] c[i] != '.' by {
            assert(is_digit(head[i]));
        }
        lemma_point_index_is(c, c.len() as int);
        assert(integer_digits(c) =~= head);
        assert(fraction_digits(c) =~= Seq::<char>::empty());
    } else {
        assert(c == head + seq!['.'] + tail);
        assert forall|i: int| 0 <= i < head.len() implies #[trigger] c[i] != '.' by {
            assert(c[i] == head[i]);
            assert(is_digit(head[i]));
        }
        assert(c[head.len() as int] == '.');
        lemma_point_index_is(c, head.len() as int);
        assert(integer_digits(c) =~= head);
        assert(fraction_digits(c) =~= tail);
    }
    assert(integer_digits(c) == head);
    assert(fraction_digits(c) == tail);
    // no leading zero
    if c.len() > 1 && c[0] == '0' {
        if ip.len() == 0 {
            assert(head.len() == 1);
            assert(c[1] == '.');
        } else {
            assert(c[0] == ip[0]);
            assert(s[0] == '0');
            if ip.len() > 1 {
                assert(ip[1] == s[1]);
                assert(is_digit(ip[1]));
                assert(s[1] != '.');
                assert(has_leading_zero(s));
            } else {
                assert(tail.len() > 0);
                assert(c[1] == '.');
            }
        }
    }
    // the same number
    assert(digits_value(head + tail) == digits_value(ip + tail)) by {
        if ip.len() == 0 {
            assert(head == zeros(1));
            lemma_leading_zeros(1, tail);
            assert(ip + tail == tail);
        }
    }
    assert(ip + fp == (ip + tail) + zeros(k));
    lemma_trailing_zeros(ip + tail, k);
    lemma_pow10_adds(tail.len(), k);
    let v = digits_value(ip + tail) as int;
    let pt = pow10(tail.len()) as int;
    let pk = pow10(k) as int;
    assert(fp.len() == tail.len() + k);
    assert(v * (pt * pk) == (v * pk) * pt) by (nonlinear_arith);
    // its own canonical writing
    let k2 = lemma_strip_trailing_zeros(tail);
    if tail.len() > 0 && k2 > 0 {
        assert(tail.last() == zeros(k2)[k2 - 1]);
    }
    assert(strip_trailing_zeros(tail) == tail);
}

// ---------------------------------------------------------------------------
// Executable code
// ---------------------------------------------------------------------------

/// Whether `c` is a decimal digit.
pub fn is_digit_char(c: char) -> (d: bool)
    ensures
        d == is_digit(c),
{
    '0' <= c && c <= '9'
}

/// The digit that writes `d`.
fn digit_of(d: u64) -> (c: char)
    requires
        d < 10,
    ensures
        c == digit_char(d as nat),
{
    let b: u8 = 48 + (d as u8);
    b as char
}

/// The decimal writing of `n`.
pub fn unsigned_text(n: u64) -> (out: Vec<char>)
    ensures
        out@ == nat_text(n as nat),
    decreases n,
{
    if n < 10 {
        let mut out: Vec<char> = Vec::new();
        out.push(digit_of(n));
        assert(out@ =~= seq![digit_char(n as nat)]);
        out
    } else {
        let mut out = unsigned_text(n / 10);
        out.push(digit_of(n % 10));
        out
    }
}

/// The decimal writing of `n`.
pub fn wide_text(n: u128) -> (out: Vec<char>)
    ensures
        out@ == nat_text(n as nat),
    decreases n,
{
    if n < 10 {
        let mut out: Vec<char> = Vec::new();
        out.push(digit_of(n as u64));
        assert(out@ =~= seq![digit_char(n as nat)]);
        out
    } else {
        let mut out = wide_text(n / 10);
        out.push(digit_of((n % 10) as u64));
        out
    }
}

/// The decimal writing of `n`.
pub fn signed_text(n: i64) -> (out: Vec<char>)
    ensures
        out@ == int_text(n as int),
{
    if n >= 0 {
        unsigned_text(n as u64)
    } else {
        let magnitude: u64 = ((-(n + 1)) as u64) + 1;
        let digits = unsigned_text(magnitude);
        let mut out: Vec<char> = Vec::new();
        out.push('-');
        let mut i: usize = 0;
        while i < digits.len()
            invariant
                i <= digits.len(),
                out@ == seq!['-'] + digits@.subrange(0, i as int),
            decreases digits.len() - i,
        {
            out.push(digits[i]);
            i += 1;
        }
        assert(digits@.subrange(0, digits.len() as int) =~= digits@);
        out
    }
}

/// Whether every character of `text[from..to]` is a decimal digit.
fn digits_only(text: &Vec<char>, from: usize, to: usize) -> (ok: bool)
    requires
        from <= to <= text.len(),
    ensures
        ok == all_digits(text@.subrange(from as int, to as int)),
{
    let mut i: usize = from;
    while i < to
        invariant
            from <= i <= to <= text.len(),
            forall|j: int| from <= j < i ==> is_digit(#[trigger] text@[j]),
        decreases to - i,
    {
        if !is_digit_char(text[i]) {
            assert(text@.subrange(from as int, to as int)[i - from] == text@[i as int]);
            return false;
        }
        i += 1;
    }
    assert forall|j: int| 0 <= j < to - from implies is_digit(
        #[trigger] text@.subrange(from as int, to as int)[j],
    ) by {
        assert(text@.subrange(from as int, to as int)[j] == text@[j + from]);
    }
    true
}

/// The index of the first `.` of `text`, or its length.
fn find_point(text: &Vec<char>) -> (p: usize)
    ensures
        p == point_index(text@),
        p <= text.len(),
{
    let mut i: usize = 0;
    while i < text.len() && text[i] != '.'
        invariant
            i <= text.len(),
            forall|j: int| 0 <= j < i ==> #[trigger] text@[j] != '.',
        decreases text.len() - i,
    {
        i += 1;
    }
    proof {
        lemma_point_index_is(text@, i as int);
    }
    i
}

/// A literal split at its first point.
pub struct Parts {
    /// What stands before the point.
    pub integer: Vec<char>,
    /// What stands after the point.
    pub fraction: Vec<char>,
}

/// Splits a plain decimal literal at its point; `None` where `text` is no
/// plain decimal literal.
pub fn split_decimal(text: &Vec<char>) -> (parts: Option<Parts>)
    ensures
        parts is Some <==> is_plain_decimal(text@),
        parts matches Some(p) ==> p.integer@ == integer_digits(text@) && p.fraction@
            == fraction_digits(text@),
{
    let n = text.len();
    let p = find_point(text);
    let integer = slice_of(text, 0, p);
    let fraction = if p < n {
        slice_of(text, p + 1, n)
    } else {
        Vec::new()
    };
    assert(fraction@ == fraction_digits(text@));
    let from: usize = if p < n {
        p + 1
    } else {
        n
    };
    assert(text@.subrange(from as int, n as int) == fraction_digits(text@));
    if digits_only(text, 0, p) && digits_only(text, from, n) && integer.len() + fraction.len() > 0 {
        Some(Parts { integer, fraction })
    } else {
        None
    }
}

/// The number written by the first `k` digits of `s`.
#[verifier::opaque]
pub open spec fn prefix_value(s: Seq<char>, k: int) -> int {
    digits_value(s.subrange(0, k)) as int
}

/// One more digit multiplies the number written so far by ten and adds the
/// digit.
pub proof fn lemma_prefix_step(s: Seq<char>, k: int)
    requires
        0 <= k < s.len(),
    ensures
        prefix_value(s, k + 1) == prefix_value(s, k) * 10 + digit_value(s[k]),
        prefix_value(s, 0) == 0,
        prefix_value(s, s.len() as int) == digits_value(s),
{
    reveal(prefix_value);
    assert(s.subrange(0, k + 1).drop_last() == s.subrange(0, k));
    assert(s.subrange(0, 0) == Seq::<char>::empty());
    assert(s.subrange(0, s.len() as int) == s);
}

/// The number written by no digits is 0, and the number written by all the
/// digits is the number written.
pub proof fn lemma_prefix_ends(s: Seq<char>)
    ensures
        prefix_value(s, 0) == 0,
        prefix_value(s, s.len() as int) == digits_value(s),
{
    reveal(prefix_value);
    assert(s.subrange(0, 0) == Seq::<char>::empty());
    assert(s.subrange(0, s.len() as int) == s);
}

/// `d` after as many zeros as bring it to `width` digits.
pub open spec fn left_padded(d: Seq<char>, width: nat) -> Seq<char> {
    zeros((width - d.len()) as nat) + d
}

/// `d` before as many zeros as bring it to `width` digits.
pub open spec fn right_padded(d: Seq<char>, width: nat) -> Seq<char> {
    d + zeros((width - d.len()) as nat)
}

/// The digit of `left_padded(d, width)` at index `k`.
pub proof fn lemma_left_padded_digit(d: Seq<char>, width: nat, k: int)
    requires
        all_digits(d),
        d.len() <= width,
        0 <= k < width,
    ensures
        left_padded(d, width).len() == width,
        is_digit(left_padded(d, width)[k]),
        left_padded(d, width)[k] == if k < width - d.len() {
            '0'
        } else {
            d[k - (width - d.len())]
        },
{
}

/// The digit of `head + right_padded(d, width)` at index `head.len() + k`.
pub proof fn lemma_right_padded_digit(head: Seq<char>, d: Seq<char>, width: nat, k: int)
    requires
        all_digits(d),
        d.len() <= width,
        0 <= k < width,
    ensures
        (head + right_padded(d, width)).len() == head.len() + width,
        is_digit((head + right_padded(d, width))[head.len() + k]),
        (head + right_padded(d, width))[head.len() + k] == if k < d.len() {
            d[k]
        } else {
            '0'
        },
{
}

/// The rank after one more digit on each side.
fn rank_next(r: Rank, x: char, y: char, Ghost(p): Ghost<int>, Ghost(q): Ghost<int>) -> (out: Rank)
    requires
        is_digit(x),
        is_digit(y),
        0 <= p,
        0 <= q,
        r == rank_of(p, q),
    ensures
        out == rank_of(p * 10 + digit_value(x), q * 10 + digit_value(y)),
{
    match r {
        Rank::Level => if x < y {
            Rank::Below
        } else if x == y {
            Rank::Level
        } else {
            Rank::Above
        },
        Rank::Below => Rank::Below,
        Rank::Above => Rank::Above,
    }
}

/// How the number written by the digits `a` stands to the number written by
/// the digits `b`.
pub fn rank_integers(a: &Vec<char>, b: &Vec<char>) -> (r: Rank)
    requires
        all_digits(a@),
        all_digits(b@),
    ensures
        r == rank_of(digits_value(a@) as int, digits_value(b@) as int),
{
    let la = a.len();
    let lb = b.len();
    let width = if la > lb {
        la
    } else {
        lb
    };
    let ghost pa = left_padded(a@, width as nat);
    let ghost pb = left_padded(b@, width as nat);
    let mut r = Rank::Level;
    let mut k: usize = 0;
    proof {
        lemma_prefix_ends(pa);
        lemma_prefix_ends(pb);
    }
    while k < width
        invariant
            k <= width,
            la == a.len(),
            lb == b.len(),
            la <= width,
            lb <= width,
            all_digits(a@),
            all_digits(b@),
            pa == left_padded(a@, width as nat),
            pb == left_padded(b@, width as nat),
            0 <= prefix_value(pa, k as int),
            0 <= prefix_value(pb, k as int),
            r == rank_of(prefix_value(pa, k as int), prefix_value(pb, k as int)),
        decreases width - k,
    {
        let x = if k < width - la {
            '0'
        } else {
            a[k - (width - la)]
        };
        let y = if k < width - lb {
            '0'
        } else {
            b[k - (width - lb)]
        };
        proof {
            lemma_left_padded_digit(a@, width as nat, k as int);
            lemma_left_padded_digit(b@, width as nat, k as int);
            lemma_prefix_step(pa, k as int);
            lemma_prefix_step(pb, k as int);
        }
        r = rank_next(
            r,
            x,
            y,
            Ghost(prefix_value(pa, k as int)),
            Ghost(prefix_value(pb, k as int)),
        );
        k += 1;
    }
    proof {
        lemma_prefix_ends(pa);
        lemma_prefix_ends(pb);
        lemma_leading_zeros((width - la) as nat, a@);
        lemma_leading_zeros((width - lb) as nat, b@);
    }
    r
}

/// Bringing two fractions to one scale keeps their rank: with `wa` and `wb`
/// fractional digits and `width` the larger of the two, the numerators
/// times `10^(width - wa)` and `10^(width - wb)` stand as the fractions do.
pub proof fn lemma_rank_common_scale(na: int, wa: nat, nb: int, wb: nat, width: nat)
    requires
        width == if wa > wb {
            wa
        } else {
            wb
        },
    ensures
        rank_of(na * pow10((width - wa) as nat), nb * pow10((width - wb) as nat)) == rank_of(
            na * pow10(wb),
            nb * pow10(wa),
        ),
{
    let da = (width - wa) as nat;
    let db = (width - wb) as nat;
    assert(pow10(0) == 1);
    if wa >= wb {
        let p = pow10(wb) as int;
        let q = pow10(db) as int;
        lemma_pow10_positive(wb);
        lemma_pow10_adds(db, wb);
        lemma_rank_scaled(na, nb * q, p);
        assert((nb * q) * p == nb * (q * p)) by (nonlinear_arith);
        assert(na * pow10(da) == na) by (nonlinear_arith)
            requires
                pow10(da) == 1,
        ;
    } else {
        let p = pow10(wa) as int;
        let q = pow10(da) as int;
        lemma_pow10_positive(wa);
        lemma_pow10_adds(da, wa);
        lemma_rank_scaled(na * q, nb, p);
        assert((na * q) * p == na * (q * p)) by (nonlinear_arith);
        assert(nb * pow10(db) == nb) by (nonlinear_arith)
            requires
                pow10(db) == 1,
        ;
    }
}

/// The number written by the integer digits and the first `k` digits of the
/// padded fraction, in terms of prefixes of the whole.
pub proof fn lemma_whole_value(head: Seq<char>, d: Seq<char>, width: nat)
    requires
        d.len() <= width,
    ensures
        prefix_value(head + right_padded(d, width), head.len() as int) == digits_value(head),
        prefix_value(head + right_padded(d, width), (head.len() + width) as int) == digits_value(
            head + d,
        ) * pow10((width - d.len()) as nat),
{
    reveal(prefix_value);
    let whole = head + right_padded(d, width);
    assert(whole.subrange(0, head.len() as int) == head);
    assert(whole.subrange(0, (head.len() + width) as int) == whole);
    assert(whole == (head + d) + zeros((width - d.len()) as nat));
    lemma_trailing_zeros(head + d, (width - d.len()) as nat);
}

/// How the decimal with integer digits `ai` and fractional digits `af`
/// stands to the one with `bi` and `bf`.
pub fn rank_decimals(ai: &Vec<char>, af: &Vec<char>, bi: &Vec<char>, bf: &Vec<char>) -> (r: Rank)
    requires
        all_digits(ai@),
        all_digits(af@),
        all_digits(bi@),
        all_digits(bf@),
    ensures
        r == rank_of(
            (digits_value(ai@ + af@) * pow10(bf@.len())) as int,
            (digits_value(bi@ + bf@) * pow10(af@.len())) as int,
        ),
{
    let la = af.len();
    let lb = bf.len();
    let width = if la > lb {
        la
    } else {
        lb
    };
    let ghost wa = ai@ + right_padded(af@, width as nat);
    let ghost wb = bi@ + right_padded(bf@, width as nat);
    let mut r = rank_integers(ai, bi);
    let mut k: usize = 0;
    proof {
        lemma_whole_value(ai@, af@, width as nat);
        lemma_whole_value(bi@, bf@, width as nat);
    }
    while k < width
        invariant
            k <= width,
            la == af.len(),
            lb == bf.len(),
            la <= width,
            lb <= width,
            all_digits(af@),
            all_digits(bf@),
            wa == ai@ + right_padded(af@, width as nat),
            wb == bi@ + right_padded(bf@, width as nat),
            0 <= prefix_value(wa, ai@.len() + k),
            0 <= prefix_value(wb, bi@.len() + k),
            r == rank_of(prefix_value(wa, ai@.len() + k), prefix_value(wb, bi@.len() + k)),
        decreases width - k,
    {
        let x = if k < la {
            af[k]
        } else {
            '0'
        };
        let y = if k < lb {
            bf[k]
        } else {
            '0'
        };
        proof {
            lemma_right_padded_digit(ai@, af@, width as nat, k as int);
            lemma_right_padded_digit(bi@, bf@, width as nat, k as int);
            lemma_prefix_step(wa, ai@.len() + k);
            lemma_prefix_step(wb, bi@.len() + k);
        }
        r = rank_next(
            r,
            x,
            y,
            Ghost(prefix_value(wa, ai@.len() + k)),
            Ghost(prefix_value(wb, bi@.len() + k)),
        );
        k += 1;
    }
    proof {
        lemma_whole_value(ai@, af@, width as nat);
        lemma_whole_value(bi@, bf@, width as nat);
        lemma_rank_common_scale(
            digits_value(ai@ + af@) as int,
            la as nat,
            digits_value(bi@ + bf@) as int,
            lb as nat,
            width as nat,
        );
    }
    r
}

/// The canonical writing of a literal given by its parts.
fn write_canonical(text: &Vec<char>, parts: &Parts) -> (out: Vec<char>)
    requires
        parts.integer@ == integer_digits(text@),
        parts.fraction@ == fraction_digits(text@),
    ensures
        out@ == canonical_decimal(text@),
{
    let mut end: usize = parts.fraction.len();
    assert(parts.fraction@.subrange(0, end as int) =~= parts.fraction@);
    while end > 0 && parts.fraction[end - 1] == '0'
        invariant
            end <= parts.fraction.len(),
            strip_trailing_zeros(parts.fraction@) == strip_trailing_zeros(
                parts.fraction@.subrange(0, end as int),
            ),
        decreases end,
    {
        proof {
            let cur = parts.fraction@.subrange(0, end as int);
            assert(cur.last() == '0');
            assert(cur.drop_last() =~= parts.fraction@.subrange(0, end - 1));
        }
        end -= 1;
    }
    proof {
        assert(parts.fraction@.subrange(0, parts.fraction.len() as int) =~= parts.fraction@);
    }
    let ghost tail = parts.fraction@.subrange(0, end as int);
    proof {
        if end > 0 {
            assert(tail.last() != '0');
        }
        assert(strip_trailing_zeros(tail) == tail);
    }
    let mut out: Vec<char> = Vec::new();
    if parts.integer.len() == 0 {
        out.push('0');
    } else {
        let mut i: usize = 0;
        while i < parts.integer.len()
            invariant
                i <= parts.integer.len(),
                out@ == parts.integer@.subrange(0, i as int),
            decreases parts.integer.len() - i,
        {
            out.push(parts.integer[i]);
            i += 1;
        }
        assert(parts.integer@.subrange(0, parts.integer.len() as int) =~= parts.integer@);
    }
    let ghost head = out@;
    assert(head == if integer_digits(text@).len() == 0 {
        seq!['0']
    } else {
        integer_digits(text@)
    }) by {
        if parts.integer.len() == 0 {
            assert(out@ =~= seq!['0']);
        }
    }
    if end > 0 {
        out.push('.');
        let mut j: usize = 0;
        while j < end
            invariant
                j <= end <= parts.fraction.len(),
                out@ == head + seq!['.'] + parts.fraction@.subrange(0, j as int),
            decreases end - j,
        {
            out.push(parts.fraction[j]);
            j += 1;
        }
    }
    out
}

/// The decimal normalizer on a literal: the canonical writing of `text`, or
/// the reason why it is rejected.
pub fn normalize_decimal(text: &Vec<char>, min: &Vec<char>, max: &Vec<char>, precision: usize) -> (out:
    Result<Vec<char>, CanonError>)
    requires
        is_plain_decimal(min@),
        is_plain_decimal(max@),
    ensures
        match out {
            Ok(canonical) => normalized_decimal(text@, min@, max@, precision as nat) == Ok::<
                Seq<char>,
                Failure,
            >(canonical@),
            Err(e) => normalized_decimal(text@, min@, max@, precision as nat) == Err::<
                Seq<char>,
                Failure,
            >(e@),
        },
{
    let leading_zero = text.len() > 1 && text[0] == '0' && text[1] != '.';
    let parts = split_decimal(text);
    if leading_zero || parts.is_none() {
        return Err(CanonError::MalformedDecimal { literal: string_of(text) });
    }
    let parts = parts.unwrap();
    let low = split_decimal(min).unwrap();
    let high = split_decimal(max).unwrap();
    let to_low = rank_decimals(&parts.integer, &parts.fraction, &low.integer, &low.fraction);
    let to_high = rank_decimals(&parts.integer, &parts.fraction, &high.integer, &high.fraction);
    if to_low == Rank::Below || to_high == Rank::Above {
        return Err(CanonError::OutOfRange { literal: string_of(text) });
    }
    if parts.fraction.len() > precision {
        return Err(CanonError::PrecisionExceeded { literal: string_of(text) });
    }
    Ok(write_canonical(text, &parts))
}

} // verus!
