//! The digest of a text: SHA-256 over its UTF-8 bytes, written in lower-case
//! hexadecimal.

use vstd::prelude::*;
use vstd::string::StringSliceAdditionalSpecFns;
use crate::text::push_char;

verus! {

/// The SHA-256 hash of `data`: what `sha2::Sha256` returns for these bytes.
pub uninterp spec fn sha256(data: Seq<u8>) -> Seq<u8>;

/// Hashes `data` with SHA-256.
///
/// Wraps `sha2::Sha256`: a fresh hasher is fed `data` once and finalized.
/// The result is named, not stated; its length, 32 bytes, is the output size
/// that the crate declares for `Sha256`.
#[verifier::external_body]
fn sha256_bytes(data: &[u8]) -> (out: Vec<u8>)
    ensures
        out@ == sha256(data@),
        out@.len() == 32,
{
    let mut hasher = <sha2::Sha256 as sha2::Digest>::new();
    sha2::Digest::update(&mut hasher, data);
    sha2::Digest::finalize(hasher).to_vec()
}

/// The lower-case hexadecimal digit for `n`, for `n` below 16.
pub open spec fn hex_digit(n: int) -> char {
    if n < 10 {
        (('0' as u32) + n) as char
    } else {
        (('a' as u32) + (n - 10)) as char
    }
}

/// A lower-case hexadecimal digit.
pub open spec fn is_lower_hex(c: char) -> bool {
    ('0' <= c <= '9') || ('a' <= c <= 'f')
}

/// The bytes of `data` in lower-case hexadecimal, two digits for each byte,
/// the high half first.
pub open spec fn hex_lower(data: Seq<u8>) -> Seq<char> {
    Seq::new(
        2 * data.len(),
        |i: int|
            if i % 2 == 0 {
                hex_digit(data[i / 2] as int / 16)
            } else {
                hex_digit(data[i / 2] as int % 16)
            },
    )
}

/// The digest of a text.
pub open spec fn digest_of(text: Seq<char>) -> Seq<char> {
    hex_lower(sha256(vstd::utf8::encode_utf8(text)))
}

/// Hexadecimal text has two characters for each byte, all of them lower-case
/// hexadecimal digits.
pub proof fn lemma_hex_lower_shape(data: Seq<u8>)
    ensures
        hex_lower(data).len() == 2 * data.len(),
        forall|i: int| 0 <= i < hex_lower(data).len() ==> is_lower_hex(#[trigger] hex_lower(data)[i]),
{
    assert forall|i: int| 0 <= i < hex_lower(data).len() implies is_lower_hex(
        #[trigger] hex_lower(data)[i],
    ) by {
        let b = data[i / 2] as int;
        assert(0 <= b / 16 < 16);
        assert(0 <= b % 16 < 16);
    }
}

/// The hexadecimal digit for `n`.
fn hex_digit_of(n: u8) -> (c: char)
    requires
        n < 16,
    ensures
        c == hex_digit(n as int),
{
    if n < 10 {
        (48 + n) as char
    } else {
        (87 + n) as char
    }
}

/// Writes bytes in lower-case hexadecimal.
pub fn to_hex(data: &Vec<u8>) -> (out: String)
    ensures
        out@ == hex_lower(data@),
{
    let mut out = String::new();
    let mut i: usize = 0;
    while i < data.len()
        invariant
            i <= data.len(),
            out@.len() == 2 * i,
            forall|j: int| 0 <= j < 2 * i ==> out@[j] == #[trigger] hex_lower(data@)[j],
        decreases data.len() - i,
    {
        let b = data[i];
        let ghost before = out@;
        push_char(&mut out, hex_digit_of(b / 16));
        push_char(&mut out, hex_digit_of(b % 16));
        proof {
            assert forall|j: int| 0 <= j < 2 * (i + 1) implies out@[j] == #[trigger] hex_lower(
                data@,
            )[j] by {
                if j < 2 * i {
                    assert(out@[j] == before[j]);
                } else if j == 2 * i {
                    assert(j / 2 == i && j % 2 == 0);
                } else {
                    assert(j / 2 == i && j % 2 == 1);
                }
            }
        }
        i += 1;
    }
    assert(out@ =~= hex_lower(data@));
    out
}

/// The SHA-256 hash of the UTF-8 bytes of `text`: 32 bytes.
pub fn hash_text(text: &str) -> (out: Vec<u8>)
    ensures
        out@ == sha256(vstd::utf8::encode_utf8(text@)),
        out@.len() == 32,
{
    sha256_bytes(text.as_bytes())
}

/// The digest of `text`: 64 lower-case hexadecimal characters.
pub fn digest_text(text: &str) -> (out: String)
    ensures
        out@ == digest_of(text@),
        out@.len() == 64,
        forall|i: int| 0 <= i < 64 ==> is_lower_hex(#[trigger] out@[i]),
{
    let hash = sha256_bytes(text.as_bytes());
    proof {
        lemma_hex_lower_shape(hash@);
    }
    to_hex(&hash)
}

} // verus!
