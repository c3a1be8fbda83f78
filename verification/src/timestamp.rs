//! Timestamps: UTC instants with second precision, written
//! `YYYY-MM-DDTHH:MM:SSZ`.

use vstd::prelude::*;
use crate::decimal::{fraction_digits, lemma_point_index, lemma_point_index_is, point_index};
use crate::error::{CanonError, Failure};
use crate::text::{
    chars_of, has_char, is_tight, is_whitespace, lemma_trimmed_is_slice, lemma_trimmed_of_tight,
    slice_of, string_of, trim, trimmed,
};

verus! {

/// What stands behind the date of a timestamp: its characters from index 10
/// on.
pub open spec fn behind_date(t: Seq<char>) -> Seq<char> {
    if t.len() > 10 {
        t.subrange(10, t.len() as int)
    } else {
        Seq::empty()
    }
}

/// A timestamp carries an explicit offset where it holds a `+`, or a `-`
/// behind its date.
pub open spec fn carries_offset(t: Seq<char>) -> bool {
    t.contains('+') || behind_date(t).contains('-')
}

/// A trimmed timestamp that is refused before its shape is looked at: it
/// does not end in `Z`, it carries an offset, or it holds more than one `.`.
pub open spec fn has_offset_or_no_zulu(t: Seq<char>) -> bool {
    ||| t.len() == 0
    ||| t.last() != 'Z'
    ||| carries_offset(t)
    ||| fraction_digits(t).contains('.')
}

/// A trimmed timestamp without its fractional seconds: what stands before the
/// `.`, then `Z`. A timestamp without a `.` is unchanged.
pub open spec fn without_fraction(t: Seq<char>) -> Seq<char> {
    if t.contains('.') {
        t.subrange(0, point_index(t)).push('Z')
    } else {
        t
    }
}

/// Exactly 20 characters, with a `T` at index 10 and nowhere else before the
/// last character: a 10-character date, `T`, an 8-character time, and one
/// character more.
pub open spec fn has_instant_shape(n: Seq<char>) -> bool {
    &&& n.len() == 20
    &&& forall|i: int| 0 <= i < 19 ==> (#[trigger] n[i] == 'T') == (i == 10)
}

/// The timestamp normalizer: the canonical timestamp for `ts`, or the
/// rejection of `ts`.
pub open spec fn normalized_timestamp(ts: Seq<char>) -> Result<Seq<char>, Failure> {
    let t = trimmed(ts);
    if has_offset_or_no_zulu(t) || !has_instant_shape(without_fraction(t)) {
        Err(Failure::MalformedTimestamp { literal: ts })
    } else {
        Ok(without_fraction(t))
    }
}

/// A canonical timestamp is its own canonical form.
pub proof fn lemma_timestamp_idempotent(ts: Seq<char>)
    requires
        normalized_timestamp(ts) is Ok,
    ensures
        normalized_timestamp(normalized_timestamp(ts)->Ok_0) == normalized_timestamp(ts),
{
    let t = trimmed(ts);
    let n = without_fraction(t);
    let _ = lemma_trimmed_is_slice(ts);
    lemma_point_index(t);
    let p = point_index(t);
    assert(n.len() == 20);
    assert(n.last() == 'Z');
    // every character of n but the last is a character of t before any point
    assert forall|i: int| 0 <= i < 19 implies #[trigger] n[i] == t[i] && t[i] != '.' by {
        if t.contains('.') {
            let j = choose|j: int| 0 <= j < t.len() && t[j] == '.';
            assert(p < t.len()) by {
                if p == t.len() {
                    assert(t[j] != '.');
                }
            }
            assert(p == 19);
        } else {
            if t[i] == '.' {
                assert(t.contains('.'));
            }
        }
    }
    assert(n[0] == t[0]);
    assert(is_tight(n)) by {
        assert(!is_whitespace('Z'));
        assert(!is_whitespace(t.first()));
    }
    lemma_trimmed_of_tight(n);
    assert(!n.contains('.')) by {
        if n.contains('.') {
            let j = choose|j: int| 0 <= j < n.len() && n[j] == '.';
            if j < 19 {
                assert(n[j] == t[j]);
            }
        }
    }
    assert(!n.contains('+')) by {
        if n.contains('+') {
            let j = choose|j: int| 0 <= j < n.len() && n[j] == '+';
            if j < 19 {
                assert(n[j] == t[j]);
                assert(t.contains('+'));
            }
        }
    }
    assert(!behind_date(n).contains('-')) by {
        let rest = behind_date(n);
        if rest.contains('-') {
            let j = choose|j: int| 0 <= j < rest.len() && rest[j] == '-';
            assert(rest[j] == n[j + 10]);
            if j + 10 < 19 {
                assert(n[j + 10] == t[j + 10]);
                assert(behind_date(t)[j] == t[j + 10]);
                assert(behind_date(t).contains('-'));
            }
        }
    }
    lemma_point_index(n);
    assert(point_index(n) == n.len()) by {
        if point_index(n) < n.len() {
            assert(n.contains('.'));
        }
    }
    assert(fraction_digits(n) == Seq::<char>::empty());
    assert(without_fraction(n) == n);
}

/// Whether `n` has the shape of a canonical timestamp.
pub fn is_instant_shaped(n: &Vec<char>) -> (ok: bool)
    ensures
        ok == has_instant_shape(n@),
{
    if n.len() != 20 {
        return false;
    }
    let mut i: usize = 0;
    while i < 19
        invariant
            i <= 19,
            n.len() == 20,
            forall|j: int| 0 <= j < i ==> (#[trigger] n@[j] == 'T') == (j == 10),
        decreases 19 - i,
    {
        if (n[i] == 'T') != (i == 10) {
            assert((n@[i as int] == 'T') != (i as int == 10));
            return false;
        }
        i += 1;
    }
    true
}

/// Normalizes a timestamp to second precision.
pub fn normalize_timestamp_text(ts: &str) -> (out: Result<String, CanonError>)
    ensures
        match out {
            Ok(n) => normalized_timestamp(ts@) == Ok::<Seq<char>, Failure>(n@),
            Err(e) => normalized_timestamp(ts@) == Err::<Seq<char>, Failure>(e@),
        },
{
    let raw = chars_of(ts);
    let t = trim(&raw);
    let len = t.len();
    if len == 0 || t[len - 1] != 'Z' {
        return Err(CanonError::MalformedTimestamp { literal: string_of(&raw) });
    }
    if has_char(&t, '+') || (len > 10 && has_char(&slice_of(&t, 10, len), '-')) {
        return Err(CanonError::MalformedTimestamp { literal: string_of(&raw) });
    }
    let mut p: usize = 0;
    while p < len && t[p] != '.'
        invariant
            p <= len == t.len(),
            forall|j: int| 0 <= j < p ==> #[trigger] t@[j] != '.',
        decreases len - p,
    {
        p += 1;
    }
    proof {
        lemma_point_index_is(t@, p as int);
        if p < len {
            assert(t@.contains('.'));
        } else {
            assert(!t@.contains('.'));
        }
    }
    let n = if p < len {
        let rest = slice_of(&t, p + 1, len);
        if has_char(&rest, '.') {
            return Err(CanonError::MalformedTimestamp { literal: string_of(&raw) });
        }
        let mut head = slice_of(&t, 0, p);
        head.push('Z');
        head
    } else {
        t
    };
    assert(n@ == without_fraction(trimmed(ts@)));
    if !is_instant_shaped(&n) {
        return Err(CanonError::MalformedTimestamp { literal: string_of(&raw) });
    }
    Ok(string_of(&n))
}

} // verus!
