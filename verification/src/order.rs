//! The lexicographic order on texts, sorting, and removal of repeats.

use vstd::prelude::*;
use vstd::relations::{sorted_by, total_ordering};
use vstd::seq_lib::{lemma_sorted_unique, to_multiset_build, to_multiset_insert};

verus! {

/// `a` comes before `b`, or is `b`, when texts are compared character by
/// character on their code points and a proper prefix comes first.
pub open spec fn text_le(a: Seq<char>, b: Seq<char>) -> bool
    decreases a.len(),
{
    if a.len() == 0 {
        true
    } else if b.len() == 0 {
        false
    } else if a.first() == b.first() {
        text_le(a.drop_first(), b.drop_first())
    } else {
        a.first() < b.first()
    }
}

/// [`text_le`] as a relation.
pub open spec fn text_order() -> spec_fn(Seq<char>, Seq<char>) -> bool {
    |a: Seq<char>, b: Seq<char>| text_le(a, b)
}

/// `a` comes strictly before `b`.
pub open spec fn text_lt(a: Seq<char>, b: Seq<char>) -> bool {
    text_le(a, b) && a != b
}

/// A sequence of texts in ascending order, repeats allowed.
pub open spec fn ascending(s: Seq<Seq<char>>) -> bool {
    sorted_by(s, text_order())
}

/// A sequence of texts in ascending order without repeats.
pub open spec fn strictly_ascending(s: Seq<Seq<char>>) -> bool {
    forall|i: int, j: int| 0 <= i < j < s.len() ==> text_lt(#[trigger] s[i], #[trigger] s[j])
}

/// The texts of `s` in ascending order.
pub open spec fn sorted(s: Seq<Seq<char>>) -> Seq<Seq<char>> {
    s.sort_by(text_order())
}

/// `s` with each run of equal neighbours reduced to one of them.
pub open spec fn without_repeats(s: Seq<Seq<char>>) -> Seq<Seq<char>>
    decreases s.len(),
{
    if s.len() <= 1 {
        s
    } else if s[s.len() - 2] == s.last() {
        without_repeats(s.drop_last())
    } else {
        without_repeats(s.drop_last()).push(s.last())
    }
}

/// The texts held by a vector of character vectors.
pub open spec fn texts(v: Seq<Vec<char>>) -> Seq<Seq<char>> {
    Seq::new(v.len(), |i: int| v[i]@)
}

pub proof fn lemma_text_le_reflexive(a: Seq<char>)
    ensures
        text_le(a, a),
    decreases a.len(),
{
    if a.len() > 0 {
        lemma_text_le_reflexive(a.drop_first());
    }
}

pub proof fn lemma_text_le_antisymmetric(a: Seq<char>, b: Seq<char>)
    requires
        text_le(a, b),
        text_le(b, a),
    ensures
        a == b,
    decreases a.len(),
{
    if a.len() == 0 || b.len() == 0 {
        assert(a =~= b);
    } else {
        lemma_text_le_antisymmetric(a.drop_first(), b.drop_first());
        assert(a =~= seq![a.first()] + a.drop_first());
        assert(b =~= seq![b.first()] + b.drop_first());
    }
}

pub proof fn lemma_text_le_transitive(a: Seq<char>, b: Seq<char>, c: Seq<char>)
    requires
        text_le(a, b),
        text_le(b, c),
    ensures
        text_le(a, c),
    decreases a.len(),
{
    if a.len() > 0 && a.first() == b.first() && b.first() == c.first() {
        lemma_text_le_transitive(a.drop_first(), b.drop_first(), c.drop_first());
    }
}

pub proof fn lemma_text_le_connected(a: Seq<char>, b: Seq<char>)
    ensures
        text_le(a, b) || text_le(b, a),
    decreases a.len(),
{
    if a.len() > 0 && b.len() > 0 && a.first() == b.first() {
        lemma_text_le_connected(a.drop_first(), b.drop_first());
    }
}

/// The lexicographic order is a total order.
pub proof fn lemma_text_order_total()
    ensures
        total_ordering(text_order()),
{
    let r = text_order();
    assert forall|x: Seq<char>| #[trigger] r(x, x) by {
        lemma_text_le_reflexive(x);
    }
    assert forall|x: Seq<char>, y: Seq<char>| #[trigger] r(x, y) && #[trigger] r(y, x) implies x
        == y by {
        lemma_text_le_antisymmetric(x, y);
    }
    assert forall|x: Seq<char>, y: Seq<char>, z: Seq<char>| #[trigger]
        r(x, y) && #[trigger] r(y, z) implies r(x, z) by {
        lemma_text_le_transitive(x, y, z);
    }
    assert forall|x: Seq<char>, y: Seq<char>| #[trigger] r(x, y) || #[trigger] r(y, x) by {
        lemma_text_le_connected(x, y);
    }
}

/// Whether `a` comes before `b` or is `b`.
pub fn text_precedes(a: &Vec<char>, b: &Vec<char>) -> (le: bool)
    ensures
        le == text_le(a@, b@),
{
    let mut i: usize = 0;
    assert(a@.skip(0) == a@ && b@.skip(0) == b@);
    while i < a.len() && i < b.len()
        invariant
            i <= a.len(),
            i <= b.len(),
            text_le(a@, b@) == text_le(a@.skip(i as int), b@.skip(i as int)),
        decreases a.len() - i,
    {
        let x = a[i];
        let y = b[i];
        proof {
            assert(a@.skip(i as int).first() == x);
            assert(b@.skip(i as int).first() == y);
            assert(a@.skip(i as int).drop_first() == a@.skip(i + 1));
            assert(b@.skip(i as int).drop_first() == b@.skip(i + 1));
        }
        if x != y {
            return x < y;
        }
        i += 1;
    }
    i >= a.len()
}

/// Sorts texts into ascending order, keeping repeats.
pub fn sort_texts(items: Vec<Vec<char>>) -> (out: Vec<Vec<char>>)
    ensures
        texts(out@) == sorted(texts(items@)),
{
    let ghost given = texts(items@);
    let mut rest = items;
    let mut out: Vec<Vec<char>> = Vec::new();
    proof {
        lemma_text_order_total();
        assert(texts(out@) =~= Seq::<Seq<char>>::empty());
        assert(texts(out@).to_multiset().add(texts(rest@).to_multiset()) =~= given.to_multiset())
            by {
            broadcast use vstd::seq_lib::group_to_multiset_ensures;

            assert(texts(out@).to_multiset() =~= vstd::multiset::Multiset::empty());
        }
    }
    while rest.len() > 0
        invariant
            total_ordering(text_order()),
            ascending(texts(out@)),
            texts(out@).to_multiset().add(texts(rest@).to_multiset()) == given.to_multiset(),
        decreases rest.len(),
    {
        let ghost before_rest = texts(rest@);
        let ghost before_out = texts(out@);
        let item = rest.pop().unwrap();
        let mut pos: usize = 0;
        while pos < out.len() && text_precedes(&out[pos], &item)
            invariant
                pos <= out.len(),
                forall|j: int| 0 <= j < pos ==> text_le(#[trigger] texts(out@)[j], item@),
            decreases out.len() - pos,
        {
            pos += 1;
        }
        out.insert(pos, item);
        proof {
            let now = texts(out@);
            let x = item@;
            assert(now =~= before_out.insert(pos as int, x));
            assert(before_rest =~= texts(rest@).push(x));
            to_multiset_insert(before_out, pos as int, x);
            to_multiset_build(texts(rest@), x);
            assert(now.to_multiset().add(texts(rest@).to_multiset()) =~= given.to_multiset());
            assert forall|i: int, j: int| 0 <= i < j < now.len() implies #[trigger] text_order()(
                now[i],
                now[j],
            ) by {
                if j < pos {
                    assert(now[i] == before_out[i] && now[j] == before_out[j]);
                    assert(text_order()(before_out[i], before_out[j]));
                } else if j == pos {
                    assert(now[i] == before_out[i]);
                } else if i < pos {
                    assert(now[i] == before_out[i] && now[j] == before_out[j - 1]);
                    if i < j - 1 {
                        assert(text_order()(before_out[i], before_out[j - 1]));
                    } else {
                        lemma_text_le_reflexive(now[i]);
                    }
                } else if i == pos {
                    assert(now[j] == before_out[j - 1]);
                    assert(!text_le(before_out[pos as int], x));
                    lemma_text_le_connected(before_out[pos as int], x);
                    if (pos as int) < j - 1 {
                        assert(text_order()(before_out[pos as int], before_out[j - 1]));
                        lemma_text_le_transitive(x, before_out[pos as int], before_out[j - 1]);
                    }
                } else {
                    assert(now[i] == before_out[i - 1] && now[j] == before_out[j - 1]);
                    assert(text_order()(before_out[i - 1], before_out[j - 1]));
                }
            }
        }
    }
    proof {
        broadcast use vstd::seq_lib::group_to_multiset_ensures;

        assert(texts(rest@) =~= Seq::<Seq<char>>::empty());
        assert(texts(rest@).to_multiset() =~= vstd::multiset::Multiset::empty());
        assert(texts(out@).to_multiset() =~= given.to_multiset());
        given.lemma_sort_by_ensures(text_order());
        lemma_sorted_unique(texts(out@), sorted(given), text_order());
    }
    out
}

/// Removes each text that repeats its predecessor.
pub fn drop_repeats(items: Vec<Vec<char>>) -> (out: Vec<Vec<char>>)
    ensures
        texts(out@) == without_repeats(texts(items@)),
{
    let mut out: Vec<Vec<char>> = Vec::new();
    let mut i: usize = 0;
    let n = items.len();
    proof {
        assert(texts(items@).subrange(0, 0) =~= Seq::<Seq<char>>::empty());
        assert(texts(out@) =~= Seq::<Seq<char>>::empty());
    }
    while i < n
        invariant
            i <= n == items.len(),
            texts(out@) == without_repeats(texts(items@).subrange(0, i as int)),
        decreases n - i,
    {
        let ghost prefix = texts(items@).subrange(0, i as int);
        let ghost next = texts(items@).subrange(0, i + 1);
        let ghost before = texts(out@);
        proof {
            assert(next.drop_last() =~= prefix);
            assert(next.last() == items@[i as int]@);
            if i > 0 {
                assert(next[next.len() - 2] == items@[i - 1]@);
            }
        }
        let repeat = i > 0 && super::text::same_text(&items[i - 1], &items[i]);
        if !repeat {
            let copy = super::text::slice_of(&items[i], 0, items[i].len());
            proof {
                assert(copy@ =~= items@[i as int]@);
            }
            out.push(copy);
            proof {
                assert(texts(out@) =~= before.push(items@[i as int]@));
                if i == 0 {
                    assert(next =~= seq![items@[0]@]);
                    assert(before =~= Seq::<Seq<char>>::empty());
                    assert(texts(out@) =~= next);
                }
            }
        }
        i += 1;
    }
    proof {
        assert(texts(items@).subrange(0, n as int) =~= texts(items@));
    }
    out
}

/// After [`without_repeats`] an ascending sequence is strictly ascending and
/// holds the same texts.
pub proof fn lemma_without_repeats_of_ascending(s: Seq<Seq<char>>)
    requires
        ascending(s),
    ensures
        strictly_ascending(without_repeats(s)),
        without_repeats(s).to_set() == s.to_set(),
        s.len() > 0 ==> without_repeats(s).len() > 0 && without_repeats(s).last() == s.last(),
    decreases s.len(),
{
    let out = without_repeats(s);
    if s.len() <= 1 {
    } else {
        let init = s.drop_last();
        let prev = without_repeats(init);
        assert forall|i: int, j: int| 0 <= i < j < init.len() implies #[trigger] text_order()(
            init[i],
            init[j],
        ) by {
            assert(text_order()(s[i], s[j]));
        }
        lemma_without_repeats_of_ascending(init);
        assert(init.last() == s[s.len() - 2]);
        if s[s.len() - 2] == s.last() {
            assert(out.to_set() =~= s.to_set()) by {
                assert forall|x: Seq<char>| s.to_set().contains(x) implies init.to_set().contains(
                    x,
                ) by {
                    let k = choose|k: int| 0 <= k < s.len() && s[k] == x;
                    if k == s.len() - 1 {
                        assert(init[init.len() - 1] == x);
                    } else {
                        assert(init[k] == x);
                    }
                }
                assert forall|x: Seq<char>| init.to_set().contains(x) implies s.to_set().contains(
                    x,
                ) by {
                    let k = choose|k: int| 0 <= k < init.len() && init[k] == x;
                    assert(s[k] == x);
                }
            }
        } else {
            assert(out == prev.push(s.last()));
            assert forall|i: int, j: int| 0 <= i < j < out.len() implies text_lt(
                #[trigger] out[i],
                #[trigger] out[j],
            ) by {
                if j < prev.len() {
                    assert(text_lt(prev[i], prev[j]));
                } else {
                    // out[j] is s.last(); out[i] is in prev, hence in init
                    assert(prev.to_set().contains(prev[i]));
                    assert(init.to_set().contains(prev[i]));
                    let k = choose|k: int| 0 <= k < init.len() && init[k] == prev[i];
                    assert(text_order()(s[k], s[s.len() - 1]));
                    if prev[i] == s.last() {
                        // then s[k] == s.last(), and every text between them equals it
                        assert(text_order()(s[k], s[s.len() - 2]) || k == s.len() - 2);
                        assert(text_order()(s[s.len() - 2], s[s.len() - 1]));
                        lemma_text_le_reflexive(s[k]);
                        lemma_text_le_antisymmetric(s[s.len() - 2], s.last());
                    }
                }
            }
            assert(out.to_set() =~= s.to_set()) by {
                assert forall|x: Seq<char>| s.to_set().contains(x) implies out.to_set().contains(
                    x,
                ) by {
                    let k = choose|k: int| 0 <= k < s.len() && s[k] == x;
                    if k == s.len() - 1 {
                        assert(out[out.len() - 1] == x);
                    } else {
                        assert(init[k] == x);
                        assert(init.to_set().contains(x));
                        assert(prev.to_set().contains(x));
                        let m = choose|m: int| 0 <= m < prev.len() && prev[m] == x;
                        assert(out[m] == x);
                    }
                }
                assert forall|x: Seq<char>| out.to_set().contains(x) implies s.to_set().contains(
                    x,
                ) by {
                    let m = choose|m: int| 0 <= m < out.len() && out[m] == x;
                    if m == out.len() - 1 {
                        assert(s[s.len() - 1] == x);
                    } else {
                        assert(prev[m] == x);
                        assert(prev.to_set().contains(x));
                        assert(init.to_set().contains(x));
                        let k = choose|k: int| 0 <= k < init.len() && init[k] == x;
                        assert(s[k] == x);
                    }
                }
            }
        }
    }
}

/// In a sequence whose neighbours ascend strictly, any two texts do.
pub proof fn lemma_chain_ascends(keys: Seq<Seq<char>>, x: int, y: int)
    requires
        forall|j: int| 0 < j < keys.len() ==> text_lt(keys[j - 1], #[trigger] keys[j]),
        0 <= x < y < keys.len(),
    ensures
        text_lt(keys[x], keys[y]),
    decreases y - x,
{
    if y == x + 1 {
        assert(text_lt(keys[y - 1], keys[y]));
    } else {
        lemma_chain_ascends(keys, x, y - 1);
        assert(text_lt(keys[y - 1], keys[y]));
        lemma_text_le_transitive(keys[x], keys[y - 1], keys[y]);
        if keys[x] == keys[y] {
            lemma_text_le_antisymmetric(keys[y - 1], keys[y]);
        }
    }
}

/// A text comes strictly before another where the two agree on their first
/// `k` characters and the first has the smaller character at index `k`.
pub proof fn lemma_text_before(a: Seq<char>, b: Seq<char>, k: int)
    requires
        0 <= k < a.len(),
        k < b.len(),
        forall|i: int| 0 <= i < k ==> a[i] == b[i],
        a[k] < b[k],
    ensures
        text_lt(a, b),
    decreases k,
{
    if k > 0 {
        let ta = a.drop_first();
        let tb = b.drop_first();
        assert forall|i: int| 0 <= i < k - 1 implies ta[i] == tb[i] by {
            assert(ta[i] == a[i + 1] && tb[i] == b[i + 1]);
        }
        assert(a[0] == b[0]);
        lemma_text_before(ta, tb, k - 1);
    }
}

/// Keys whose neighbours ascend strictly are in strictly ascending order.
pub proof fn lemma_keys_ascend(keys: Seq<Seq<char>>)
    requires
        forall|j: int| 0 < j < keys.len() ==> text_lt(keys[j - 1], #[trigger] keys[j]),
    ensures
        strictly_ascending(keys),
{
    assert forall|x: int, y: int| 0 <= x < y < keys.len() implies text_lt(
        #[trigger] keys[x],
        #[trigger] keys[y],
    ) by {
        lemma_chain_ascends(keys, x, y);
    }
}

} // verus!
