//! What holds of the canonical form, whatever the document.

use vstd::prelude::*;
use crate::canonicalization::{
    canonical_constraints, canonical_intent, canonical_word, chains, intent_keys, instruments,
    normalized_signer_id, normalized_symbol, option_kinds, sides, text_items, venue_allowlist,
};
use crate::decimal::{
    decimal_rank, has_leading_zero, is_plain_decimal, lemma_canonical_decimal, normalized_decimal,
    scale, Rank,
};
use crate::error::ErrorKind;
use crate::fields::keys_match;
use crate::json::{key_names, Json};
use crate::order::{
    lemma_text_order_total, lemma_without_repeats_of_ascending, sorted, strictly_ascending,
    text_order,
};
use crate::pipeline::intent_identity;
use crate::text::{
    ascii_lower_char, ascii_lowercase, ascii_upper_char, ascii_uppercase, is_ascii, is_tight,
    lemma_trimmed_is_slice, lemma_trimmed_of_tight, trimmed, uppercase,
};
use crate::timestamp::{lemma_timestamp_idempotent, normalized_timestamp};

verus! {

/// The canonical form and the identity of an intent depend on the document
/// alone: documents that are equal have the same canonical form, or the same
/// rejection, and the same identity.
pub proof fn law_determinism(a: Json, b: Json)
    requires
        a == b,
    ensures
        canonical_intent(a) == canonical_intent(b),
        intent_identity(a) == intent_identity(b),
{
}

/// Trimming an ASCII text and bringing it to lower case gives an ASCII text
/// that is tight and in lower case.
pub proof fn lemma_lowered_ascii(raw: Seq<char>)
    requires
        is_ascii(raw),
    ensures
        is_ascii(canonical_word(raw)),
        is_tight(canonical_word(raw)),
        canonical_word(raw) == ascii_lowercase(trimmed(raw)),
        ascii_lowercase(canonical_word(raw)) == canonical_word(raw),
{
    let b = lemma_trimmed_is_slice(raw);
    let t = trimmed(raw);
    assert forall|i: int| 0 <= i < t.len() implies (#[trigger] t[i] as u32) < 0x80 by {
        assert(t[i] == raw[i + b.0]);
    }
    let u = ascii_lowercase(t);
    assert forall|i: int| 0 <= i < u.len() implies (#[trigger] u[i] as u32) < 0x80 by {
        assert(u[i] == ascii_lower_char(t[i]));
        assert((t[i] as u32) < 0x80);
    }
    if u.len() > 0 {
        assert(u.first() == ascii_lower_char(t.first()));
        assert(u.last() == ascii_lower_char(t.last()));
    }
    assert(ascii_lowercase(u) =~= u) by {
        assert forall|i: int| 0 <= i < u.len() implies ascii_lowercase(u)[i] == u[i] by {
            assert(u[i] == ascii_lower_char(t[i]));
        }
    }
}

/// Trimming an ASCII text and bringing it to upper case gives an ASCII text
/// that is tight and in upper case.
pub proof fn lemma_raised_ascii(raw: Seq<char>)
    requires
        is_ascii(raw),
    ensures
        is_ascii(uppercase(trimmed(raw))),
        is_tight(uppercase(trimmed(raw))),
        uppercase(trimmed(raw)) == ascii_uppercase(trimmed(raw)),
        ascii_uppercase(uppercase(trimmed(raw))) == uppercase(trimmed(raw)),
{
    let b = lemma_trimmed_is_slice(raw);
    let t = trimmed(raw);
    assert forall|i: int| 0 <= i < t.len() implies (#[trigger] t[i] as u32) < 0x80 by {
        assert(t[i] == raw[i + b.0]);
    }
    let u = ascii_uppercase(t);
    assert forall|i: int| 0 <= i < u.len() implies (#[trigger] u[i] as u32) < 0x80 by {
        assert(u[i] == ascii_upper_char(t[i]));
        assert((t[i] as u32) < 0x80);
    }
    if u.len() > 0 {
        assert(u.first() == ascii_upper_char(t.first()));
        assert(u.last() == ascii_upper_char(t.last()));
    }
    assert(ascii_uppercase(u) =~= u) by {
        assert forall|i: int| 0 <= i < u.len() implies ascii_uppercase(u)[i] == u[i] by {
            assert(u[i] == ascii_upper_char(t[i]));
        }
    }
}

/// A canonical timestamp is its own canonical form.
pub proof fn law_timestamp_idempotent(raw: Seq<char>)
    requires
        normalized_timestamp(raw) is Ok,
    ensures
        normalized_timestamp(normalized_timestamp(raw)->Ok_0) == normalized_timestamp(raw),
{
    lemma_timestamp_idempotent(raw);
}

/// The canonical writing of an ASCII word is its own canonical writing.
pub proof fn law_word_idempotent(raw: Seq<char>)
    requires
        is_ascii(raw),
    ensures
        canonical_word(canonical_word(raw)) == canonical_word(raw),
{
    lemma_lowered_ascii(raw);
    lemma_trimmed_of_tight(canonical_word(raw));
}

/// A canonical signer that was made from an ASCII text is its own canonical
/// form.
pub proof fn law_signer_idempotent(raw: Seq<char>)
    requires
        is_ascii(raw),
        normalized_signer_id(raw) is Ok,
    ensures
        normalized_signer_id(normalized_signer_id(raw)->Ok_0) == normalized_signer_id(raw),
{
    lemma_lowered_ascii(raw);
    lemma_trimmed_of_tight(canonical_word(raw));
}

/// A canonical symbol that was made from an ASCII text is its own canonical
/// form.
pub proof fn law_symbol_idempotent(raw: Seq<char>)
    requires
        is_ascii(raw),
        normalized_symbol(raw) is Ok,
    ensures
        normalized_symbol(normalized_symbol(raw)->Ok_0) == normalized_symbol(raw),
{
    lemma_raised_ascii(raw);
    lemma_trimmed_of_tight(uppercase(trimmed(raw)));
}

/// Each side, chain, instrument and kind of option is its own canonical
/// writing.
pub proof fn law_permitted_words_canonical(word: Seq<char>)
    requires
        sides().contains(word) || chains().contains(word) || instruments().contains(word)
            || option_kinds().contains(word),
    ensures
        canonical_word(word) == word,
{
    reveal_strlit("long");
    reveal_strlit("short");
    reveal_strlit("buy");
    reveal_strlit("sell");
    reveal_strlit("near");
    reveal_strlit("ethereum");
    reveal_strlit("arbitrum");
    reveal_strlit("base");
    reveal_strlit("solana");
    reveal_strlit("perp");
    reveal_strlit("option");
    reveal_strlit("call");
    reveal_strlit("put");
    assert(word == "long"@ || word == "short"@ || word == "buy"@ || word == "sell"@ || word
        == "near"@ || word == "ethereum"@ || word == "arbitrum"@ || word == "base"@ || word
        == "solana"@ || word == "perp"@ || word == "option"@ || word == "call"@ || word == "put"@)
        by {
        if sides().contains(word) {
            let i = choose|i: int| 0 <= i < sides().len() && sides()[i] == word;
        } else if chains().contains(word) {
            let i = choose|i: int| 0 <= i < chains().len() && chains()[i] == word;
        } else if instruments().contains(word) {
            let i = choose|i: int| 0 <= i < instruments().len() && instruments()[i] == word;
        } else {
            let i = choose|i: int| 0 <= i < option_kinds().len() && option_kinds()[i] == word;
        }
    }
    assert(is_ascii(word));
    assert(is_tight(word));
    lemma_trimmed_of_tight(word);
    assert(ascii_lowercase(word) =~= word);
}

/// The canonical writing of a decimal writes the same number as the literal
/// it was made from, is itself a literal that the normalizer takes, and has
/// no more fractional digits than the precision allows.
pub proof fn law_decimal_round_trip(
    literal: Seq<char>,
    min: Seq<char>,
    max: Seq<char>,
    precision: nat,
)
    requires
        normalized_decimal(literal, min, max, precision) is Ok,
    ensures
        ({
            let canonical = normalized_decimal(literal, min, max, precision)->Ok_0;
            &&& decimal_rank(canonical, literal) == Rank::Level
            &&& is_plain_decimal(canonical)
            &&& !has_leading_zero(canonical)
            &&& scale(canonical) <= precision
        }),
{
    lemma_canonical_decimal(literal);
}

/// The venue allowlist of canonical constraints is in strictly ascending
/// order: sorted, and free of repeats.
pub proof fn law_venues_strictly_ascending(members: Option<Seq<(Seq<char>, Json)>>)
    requires
        venue_allowlist(members) is Ok,
    ensures
        strictly_ascending(venue_allowlist(members)->Ok_0),
        canonical_constraints(members) matches Ok(Json::Object(held)) ==> held.len() == 4
            && held[3].1 == Json::Array(text_items(venue_allowlist(members)->Ok_0)),
{
    lemma_text_order_total();
    match members {
        None => {},
        Some(held) => match crate::json::lookup(held, "venue_allowlist"@) {
            Some(Json::Array(items)) => {
                let list = crate::canonicalization::venue_words(items)->Some_0;
                list.lemma_sort_by_ensures(text_order());
                lemma_without_repeats_of_ascending(sorted(list));
            },
            _ => {},
        },
    }
}

/// An object with a key that an intent does not have, or without a key that
/// an intent has, is rejected for its keys.
pub proof fn law_rejection_stability(members: Seq<(Seq<char>, Json)>, key: Seq<char>)
    requires
        (key_names(members).contains(key) && !intent_keys().contains(key)) || (
        intent_keys().contains(key) && !key_names(members).contains(key)),
    ensures
        canonical_intent(Json::Object(members)) is Err,
        canonical_intent(Json::Object(members))->Err_0.kind() == ErrorKind::SchemaViolation,
{
    let keys = key_names(members);
    if keys.contains(key) && !intent_keys().contains(key) {
        let i = choose|i: int| 0 <= i < keys.len() && keys[i] == key;
        assert(!intent_keys().contains(keys[i]));
    } else {
        let i = choose|i: int| 0 <= i < intent_keys().len() && intent_keys()[i] == key;
        assert(!keys.contains(intent_keys()[i]));
    }
    assert(!keys_match(keys, intent_keys(), intent_keys()));
}

} // verus!
