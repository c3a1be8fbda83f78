//! Documents that differ only in the order of their keys have the same
//! canonical form.

use vstd::prelude::*;
use crate::canonicalization::{
    bps_member, canonical_collateral, canonical_constraints, canonical_derivatives,
    canonical_intent, canonical_intent_members, canonical_option, collateral_member,
    constraints_member, decimal_member, derivatives_member, leverage_member, nonce_member,
    normalized_nonce, object_member, option_member, permitted_word, pinned_violation, signer_member,
    symbol_member, text_member, timestamp_member, venue_allowlist, venue_words,
};
use crate::fields::{keys_match, schema_violation};
use crate::json::{key_names, lemma_lookup, lookup, Json};
use crate::order::{lemma_text_order_total, sorted, text_order};
use crate::pipeline::intent_identity;

verus! {

/// `b` is `a` with the members of its objects, at any depth, in another
/// order: an object of `b` has the keys of the object of `a`, each as often,
/// and for each member of the one a member of the other with the same key
/// and a value that is again so related.
pub open spec fn reordered(a: Json, b: Json) -> bool
    decreases a,
{
    match a {
        Json::Object(ma) => b is Object && key_names(ma).to_multiset() == key_names(
            b->Object_0,
        ).to_multiset() && forall|i: int|
            #![trigger ma[i]]
            0 <= i < ma.len() ==> exists|j: int|
                #![trigger b->Object_0[j]]
                0 <= j < b->Object_0.len() && b->Object_0[j].0 == ma[i].0 && reordered(
                    ma[i].1,
                    b->Object_0[j].1,
                ),
        Json::Array(xa) => b is Array && b->Array_0.len() == xa.len() && forall|i: int|
            #![trigger xa[i]]
            0 <= i < xa.len() ==> reordered(xa[i], b->Array_0[i]),
        _ => a == b,
    }
}

/// Two values that a lookup found, or did not find, are alike: both absent,
/// or both there and one the other reordered.
pub open spec fn alike(x: Option<Json>, y: Option<Json>) -> bool {
    match x {
        None => y is None,
        Some(a) => y is Some && reordered(a, y->Some_0),
    }
}

/// Keys that are the same, each as often, are rejected or accepted alike and
/// sort alike.
pub proof fn lemma_same_keys(
    ka: Seq<Seq<char>>,
    kb: Seq<Seq<char>>,
    required: Seq<Seq<char>>,
    allowed: Seq<Seq<char>>,
)
    requires
        ka.to_multiset() == kb.to_multiset(),
    ensures
        ka.no_duplicates() == kb.no_duplicates(),
        forall|x: Seq<char>| ka.contains(x) == kb.contains(x),
        sorted(ka) == sorted(kb),
        keys_match(ka, required, allowed) == keys_match(kb, required, allowed),
{
    assert forall|x: Seq<char>| ka.contains(x) == kb.contains(x) by {
        vstd::seq_lib::to_multiset_contains(ka, x);
        vstd::seq_lib::to_multiset_contains(kb, x);
    }
    if ka.no_duplicates() {
        ka.lemma_multiset_has_no_duplicates();
        kb.lemma_multiset_has_no_duplicates_conv();
    }
    if kb.no_duplicates() {
        kb.lemma_multiset_has_no_duplicates();
        ka.lemma_multiset_has_no_duplicates_conv();
    }
    lemma_text_order_total();
    ka.lemma_sort_by_ensures(text_order());
    kb.lemma_sort_by_ensures(text_order());
    vstd::seq_lib::lemma_sorted_unique(sorted(ka), sorted(kb), text_order());
    if keys_match(ka, required, allowed) {
        assert forall|i: int| 0 <= i < kb.len() implies allowed.contains(#[trigger] kb[i]) by {
            assert(kb.contains(kb[i]));
            let k = choose|k: int| 0 <= k < ka.len() && ka[k] == kb[i];
            assert(allowed.contains(ka[k]));
        }
        assert forall|i: int| 0 <= i < required.len() implies kb.contains(
            #[trigger] required[i],
        ) by {
            assert(ka.contains(required[i]));
        }
    }
    if keys_match(kb, required, allowed) {
        assert forall|i: int| 0 <= i < ka.len() implies allowed.contains(#[trigger] ka[i]) by {
            assert(ka.contains(ka[i]));
            let k = choose|k: int| 0 <= k < kb.len() && kb[k] == ka[i];
            assert(allowed.contains(kb[k]));
        }
        assert forall|i: int| 0 <= i < required.len() implies ka.contains(
            #[trigger] required[i],
        ) by {
            assert(kb.contains(required[i]));
        }
    }
}

/// Among members without a repeated key, the lookup of a member's key finds
/// that member.
pub proof fn lemma_lookup_finds(members: Seq<(Seq<char>, Json)>, i: int)
    requires
        key_names(members).no_duplicates(),
        0 <= i < members.len(),
    ensures
        lookup(members, members[i].0) == Some(members[i].1),
{
    let key = members[i].0;
    let keys = key_names(members);
    lemma_lookup(members, key);
    assert(keys[i] == key);
    assert(keys.contains(key));
    let f = choose|f: int|
        0 <= f < members.len() && #[trigger] members[f].0 == key && lookup(members, key) == Some(
            members[f].1,
        ) && forall|j: int| 0 <= j < f ==> members[j].0 != key;
    assert(keys[f] == keys[i]);
}

/// Objects that are one the other reordered have the same keys, and, where
/// no key is repeated, lookups in them find values that are alike.
pub proof fn lemma_lookup_alike(
    ma: Seq<(Seq<char>, Json)>,
    mb: Seq<(Seq<char>, Json)>,
    key: Seq<char>,
)
    requires
        reordered(Json::Object(ma), Json::Object(mb)),
        key_names(ma).no_duplicates(),
    ensures
        alike(lookup(ma, key), lookup(mb, key)),
{
    let ka = key_names(ma);
    let kb = key_names(mb);
    lemma_same_keys(ka, kb, Seq::empty(), Seq::empty());
    lemma_lookup(ma, key);
    lemma_lookup(mb, key);
    if ka.contains(key) {
        let i = choose|i: int| 0 <= i < ka.len() && ka[i] == key;
        assert(ma[i].0 == key);
        lemma_lookup_finds(ma, i);
        let j = choose|j: int|
            #![trigger mb[j]]
            0 <= j < mb.len() && mb[j].0 == ma[i].0 && reordered(ma[i].1, mb[j].1);
        lemma_lookup_finds(mb, j);
    } else {
        assert(!kb.contains(key));
    }
}

/// A value that is no object and no array is reordered only to itself, and
/// reordering keeps what kind of value a value is.
pub proof fn lemma_reordered_kind(a: Json, b: Json)
    requires
        reordered(a, b),
    ensures
        a is Object <==> b is Object,
        a is Array <==> b is Array,
        !(a is Object) && !(a is Array) ==> a == b,
        a is Array ==> a->Array_0.len() == b->Array_0.len(),
{
}

/// The schema finds the same fault, or none, with an object and with the
/// object reordered.
pub proof fn lemma_same_violation(
    object: Seq<char>,
    ma: Seq<(Seq<char>, Json)>,
    mb: Seq<(Seq<char>, Json)>,
    required: Seq<Seq<char>>,
    allowed: Seq<Seq<char>>,
)
    requires
        reordered(Json::Object(ma), Json::Object(mb)),
    ensures
        schema_violation(object, ma, required, allowed) == schema_violation(
            object,
            mb,
            required,
            allowed,
        ),
        schema_violation(object, ma, required, allowed) is None ==> key_names(ma).no_duplicates(),
{
    lemma_same_keys(key_names(ma), key_names(mb), required, allowed);
}

/// What an object and the object reordered hold under a key is read alike.
pub proof fn lemma_same_member(
    ma: Seq<(Seq<char>, Json)>,
    mb: Seq<(Seq<char>, Json)>,
    key: Seq<char>,
)
    requires
        reordered(Json::Object(ma), Json::Object(mb)),
        key_names(ma).no_duplicates(),
    ensures
        alike(lookup(ma, key), lookup(mb, key)),
        text_member(ma, key) == text_member(mb, key),
        object_member(ma, key) is None <==> object_member(mb, key) is None,
        object_member(ma, key) is Some ==> reordered(
            Json::Object(object_member(ma, key)->Some_0),
            Json::Object(object_member(mb, key)->Some_0),
        ),
        forall|min: Seq<char>, max: Seq<char>, precision: nat|
            #![trigger decimal_member(ma, key, min, max, precision)]
            decimal_member(ma, key, min, max, precision) == decimal_member(
                mb,
                key,
                min,
                max,
                precision,
            ),
        lookup(ma, key) is Some ==> normalized_nonce(lookup(ma, key)->Some_0) == normalized_nonce(
            lookup(mb, key)->Some_0,
        ) && lookup(ma, key)->Some_0.as_unsigned() == lookup(mb, key)->Some_0.as_unsigned(),
{
    lemma_lookup_alike(ma, mb, key);
    if lookup(ma, key) is Some {
        lemma_reordered_kind(lookup(ma, key)->Some_0, lookup(mb, key)->Some_0);
    }
}

/// An array and the array with its items reordered within themselves give
/// the same venue words.
pub proof fn lemma_same_venue_words(xa: Seq<Json>, xb: Seq<Json>)
    requires
        reordered(Json::Array(xa), Json::Array(xb)),
    ensures
        venue_words(xa) == venue_words(xb),
{
    assert forall|i: int| 0 <= i < xa.len() implies (#[trigger] xa[i] is String) == (xb[i]
        is String) && (xa[i] is String ==> xa[i] == xb[i]) by {
        assert(reordered(xa[i], xb[i]));
        lemma_reordered_kind(xa[i], xb[i]);
    }
    if venue_words(xa) is Some {
        assert forall|i: int| 0 <= i < xb.len() implies #[trigger] xb[i] is String by {
            assert(xa[i] is String);
        }
        assert(venue_words(xa)->Some_0 =~= venue_words(xb)->Some_0);
    } else {
        let i = choose|i: int| 0 <= i < xa.len() && !(#[trigger] xa[i] is String);
        assert(!(xb[i] is String));
    }
}

/// A collateral and the collateral reordered have the same canonical form.
pub proof fn lemma_same_collateral(ma: Seq<(Seq<char>, Json)>, mb: Seq<(Seq<char>, Json)>)
    requires
        reordered(Json::Object(ma), Json::Object(mb)),
    ensures
        canonical_collateral(ma) == canonical_collateral(mb),
{
    lemma_same_violation(
        "collateral"@,
        ma,
        mb,
        crate::canonicalization::collateral_keys(),
        crate::canonicalization::collateral_keys(),
    );
    if key_names(ma).no_duplicates() {
        lemma_same_member(ma, mb, "chain"@);
        lemma_same_member(ma, mb, "token"@);
    }
}

/// Option parameters and the parameters reordered have the same canonical
/// form.
pub proof fn lemma_same_option(ma: Seq<(Seq<char>, Json)>, mb: Seq<(Seq<char>, Json)>)
    requires
        reordered(Json::Object(ma), Json::Object(mb)),
    ensures
        canonical_option(ma) == canonical_option(mb),
{
    lemma_same_violation(
        "option"@,
        ma,
        mb,
        crate::canonicalization::option_keys(),
        crate::canonicalization::option_keys(),
    );
    if key_names(ma).no_duplicates() {
        lemma_same_member(ma, mb, "expiry"@);
        lemma_same_member(ma, mb, "kind"@);
        lemma_same_member(ma, mb, "strike"@);
        assert(decimal_member(ma, "strike"@, "0.01"@, "1000000000"@, 2) == decimal_member(
            mb,
            "strike"@,
            "0.01"@,
            "1000000000"@,
            2,
        ));
    }
}

/// Constraints and the constraints reordered have the same canonical form.
pub proof fn lemma_same_constraints(ma: Seq<(Seq<char>, Json)>, mb: Seq<(Seq<char>, Json)>)
    requires
        reordered(Json::Object(ma), Json::Object(mb)),
    ensures
        canonical_constraints(Some(ma)) == canonical_constraints(Some(mb)),
{
    lemma_same_violation(
        "constraints"@,
        ma,
        mb,
        Seq::empty(),
        crate::canonicalization::constraint_keys(),
    );
    if key_names(ma).no_duplicates() {
        lemma_same_member(ma, mb, "max_fee_bps"@);
        lemma_same_member(ma, mb, "max_funding_bps_8h"@);
        lemma_same_member(ma, mb, "max_slippage_bps"@);
        lemma_same_member(ma, mb, "venue_allowlist"@);
        assert(bps_member(Some(ma), "max_fee_bps"@, 30, 100) == bps_member(
            Some(mb),
            "max_fee_bps"@,
            30,
            100,
        ));
        assert(bps_member(Some(ma), "max_funding_bps_8h"@, 50, 100) == bps_member(
            Some(mb),
            "max_funding_bps_8h"@,
            50,
            100,
        ));
        assert(bps_member(Some(ma), "max_slippage_bps"@, 100, 1000) == bps_member(
            Some(mb),
            "max_slippage_bps"@,
            100,
            1000,
        ));
        match lookup(ma, "venue_allowlist"@) {
            Some(Json::Array(xa)) => {
                let xb = lookup(mb, "venue_allowlist"@)->Some_0->Array_0;
                lemma_same_venue_words(xa, xb);
            },
            _ => {},
        }
        assert(venue_allowlist(Some(ma)) == venue_allowlist(Some(mb)));
    }
}

/// A derivatives object and the object reordered have the same canonical
/// form.
pub proof fn lemma_same_derivatives(ma: Seq<(Seq<char>, Json)>, mb: Seq<(Seq<char>, Json)>)
    requires
        reordered(Json::Object(ma), Json::Object(mb)),
    ensures
        canonical_derivatives(ma) == canonical_derivatives(mb),
{
    lemma_same_violation(
        "derivatives"@,
        ma,
        mb,
        crate::canonicalization::derivatives_required(),
        crate::canonicalization::derivatives_keys(),
    );
    if key_names(ma).no_duplicates() {
        lemma_same_member(ma, mb, "collateral"@);
        lemma_same_member(ma, mb, "constraints"@);
        lemma_same_member(ma, mb, "instrument"@);
        lemma_same_member(ma, mb, "leverage"@);
        lemma_same_member(ma, mb, "option"@);
        lemma_same_member(ma, mb, "side"@);
        lemma_same_member(ma, mb, "size"@);
        lemma_same_member(ma, mb, "symbol"@);
        if object_member(ma, "collateral"@) is Some {
            lemma_same_collateral(
                object_member(ma, "collateral"@)->Some_0,
                object_member(mb, "collateral"@)->Some_0,
            );
        }
        assert(collateral_member(ma) == collateral_member(mb));
        if object_member(ma, "constraints"@) is Some {
            lemma_same_constraints(
                object_member(ma, "constraints"@)->Some_0,
                object_member(mb, "constraints"@)->Some_0,
            );
        }
        assert(constraints_member(ma) == constraints_member(mb));
        if lookup(ma, "leverage"@) is Some {
            lemma_reordered_kind(
                lookup(ma, "leverage"@)->Some_0,
                lookup(mb, "leverage"@)->Some_0,
            );
            assert(decimal_member(ma, "leverage"@, "1"@, "100"@, 2) == decimal_member(
                mb,
                "leverage"@,
                "1"@,
                "100"@,
                2,
            ));
        }
        assert(leverage_member(ma) == leverage_member(mb));
        if object_member(ma, "option"@) is Some {
            lemma_same_option(
                object_member(ma, "option"@)->Some_0,
                object_member(mb, "option"@)->Some_0,
            );
        }
        assert(forall|instrument: Seq<char>|
            option_member(ma, instrument) == option_member(mb, instrument));
        assert(decimal_member(ma, "size"@, "0.00000001"@, "1000000"@, 8) == decimal_member(
            mb,
            "size"@,
            "0.00000001"@,
            "1000000"@,
            8,
        ));
        assert(symbol_member(ma) == symbol_member(mb));
        assert(permitted_word(ma, "instrument"@, crate::canonicalization::instruments())
            == permitted_word(mb, "instrument"@, crate::canonicalization::instruments()));
        assert(permitted_word(ma, "side"@, crate::canonicalization::sides()) == permitted_word(
            mb,
            "side"@,
            crate::canonicalization::sides(),
        ));
    }
}

/// Field-order independence: two documents that differ only in the order of
/// their keys, at any depth, have the same canonical form, or the same
/// rejection, and the same identity.
pub proof fn law_field_order_independence(a: Json, b: Json)
    requires
        reordered(a, b),
    ensures
        canonical_intent(a) == canonical_intent(b),
        intent_identity(a) == intent_identity(b),
{
    lemma_reordered_kind(a, b);
    if a is Object {
        let ma = a->Object_0;
        let mb = b->Object_0;
        lemma_same_violation(
            "intent"@,
            ma,
            mb,
            crate::canonicalization::intent_keys(),
            crate::canonicalization::intent_keys(),
        );
        if key_names(ma).no_duplicates() {
            lemma_same_member(ma, mb, "version"@);
            lemma_same_member(ma, mb, "intent_type"@);
            lemma_same_member(ma, mb, "derivatives"@);
            lemma_same_member(ma, mb, "deadline"@);
            lemma_same_member(ma, mb, "nonce"@);
            lemma_same_member(ma, mb, "signer_id"@);
            if object_member(ma, "derivatives"@) is Some {
                lemma_same_derivatives(
                    object_member(ma, "derivatives"@)->Some_0,
                    object_member(mb, "derivatives"@)->Some_0,
                );
            }
            assert(derivatives_member(ma) == derivatives_member(mb));
            assert(pinned_violation(ma, "version"@, "1.0.0"@) == pinned_violation(
                mb,
                "version"@,
                "1.0.0"@,
            ));
            assert(pinned_violation(ma, "intent_type"@, "derivatives"@) == pinned_violation(
                mb,
                "intent_type"@,
                "derivatives"@,
            ));
            assert(timestamp_member(ma, "deadline"@) == timestamp_member(mb, "deadline"@));
            assert(nonce_member(ma) == nonce_member(mb));
            assert(signer_member(ma) == signer_member(mb));
        }
        assert(canonical_intent_members(ma) == canonical_intent_members(mb));
    }
}

} // verus!
