//! The order in which key texts are sorted.

use vstd::prelude::*;
use vstd::multiset::Multiset;
use vstd::std_specs::iter::IteratorSpec;

verus! {

/// Whether `a` comes strictly before `b`: the texts are compared character by
/// character, by code point, and a proper prefix comes before its extensions.
pub open spec fn key_lt(a: Seq<char>, b: Seq<char>) -> bool
    decreases a.len(),
{
    if b.len() == 0 {
        false
    } else if a.len() == 0 {
        true
    } else if a[0] == b[0] {
        key_lt(a.skip(1), b.skip(1))
    } else {
        a[0] < b[0]
    }
}

/// Whether each text of `s` comes strictly before all later ones.
pub open spec fn ascending(s: Seq<Seq<char>>) -> bool {
    forall|i: int, j: int| 0 <= i < j < s.len() ==> key_lt(#[trigger] s[i], #[trigger] s[j])
}

/// Whether no text of `s` comes strictly before an earlier one.
pub open spec fn non_descending(s: Seq<Seq<char>>) -> bool {
    forall|i: int, j: int| 0 <= i < j < s.len() ==> !key_lt(#[trigger] s[j], #[trigger] s[i])
}

/// The texts of a sequence of strings.
pub open spec fn texts(v: Seq<String>) -> Seq<Seq<char>> {
    v.map_values(|s: String| s@)
}

/// No text comes before itself.
pub proof fn lemma_key_lt_irreflexive(a: Seq<char>)
    ensures
        !key_lt(a, a),
    decreases a.len(),
{
    if a.len() > 0 {
        lemma_key_lt_irreflexive(a.skip(1));
    }
}

/// Of two different texts one comes before the other.
pub proof fn lemma_key_lt_total(a: Seq<char>, b: Seq<char>)
    ensures
        a == b || key_lt(a, b) || key_lt(b, a),
    decreases a.len(),
{
    if a.len() == 0 || b.len() == 0 {
        if a.len() == 0 && b.len() == 0 {
            assert(a =~= b);
        }
    } else if a[0] == b[0] {
        lemma_key_lt_total(a.skip(1), b.skip(1));
        if a.skip(1) == b.skip(1) {
            assert(a =~= seq![a[0]] + a.skip(1));
            assert(b =~= seq![b[0]] + b.skip(1));
        }
    }
}

/// The order is transitive.
pub proof fn lemma_key_lt_transitive(a: Seq<char>, b: Seq<char>, c: Seq<char>)
    requires
        key_lt(a, b),
        key_lt(b, c),
    ensures
        key_lt(a, c),
    decreases a.len(),
{
    if a.len() > 0 && a[0] == b[0] && b[0] == c[0] {
        lemma_key_lt_transitive(a.skip(1), b.skip(1), c.skip(1));
    }
}

/// No two texts come before each other.
pub proof fn lemma_key_lt_asymmetric(a: Seq<char>, b: Seq<char>)
    requires
        key_lt(a, b),
    ensures
        !key_lt(b, a),
{
    if key_lt(b, a) {
        lemma_key_lt_transitive(a, b, a);
        lemma_key_lt_irreflexive(a);
    }
}

/// A text that comes before `b` comes before everything that `b` does not follow.
pub proof fn lemma_key_lt_then_not_after(a: Seq<char>, b: Seq<char>, c: Seq<char>)
    requires
        key_lt(a, b),
        !key_lt(c, b),
    ensures
        key_lt(a, c),
{
    lemma_key_lt_total(b, c);
    if b != c {
        lemma_key_lt_transitive(a, b, c);
    }
}

/// Texts in non-descending order of which no two are equal are in ascending order.
pub proof fn lemma_distinct_non_descending_is_ascending(s: Seq<Seq<char>>)
    requires
        non_descending(s),
        s.no_duplicates(),
    ensures
        ascending(s),
{
    assert forall|i: int, j: int| 0 <= i < j < s.len() implies key_lt(
        #[trigger] s[i],
        #[trigger] s[j],
    ) by {
        lemma_key_lt_total(s[i], s[j]);
    }
}

/// Texts in ascending order are all different.
pub proof fn lemma_ascending_is_distinct(s: Seq<Seq<char>>)
    requires
        ascending(s),
    ensures
        s.no_duplicates(),
{
    assert forall|i: int, j: int| 0 <= i < s.len() && 0 <= j < s.len() && i != j implies s[i]
        != s[j] by {
        if i < j {
            assert(key_lt(s[i], s[j]));
        } else {
            assert(key_lt(s[j], s[i]));
        }
        lemma_key_lt_irreflexive(s[i]);
    }
}

/// Where `after` holds the texts of `before`, no two of them equal, in
/// non-descending order, it holds each of them once, in ascending order.
pub proof fn lemma_sorted_distinct(before: Seq<Seq<char>>, after: Seq<Seq<char>>)
    requires
        before.no_duplicates(),
        non_descending(after),
        after.to_multiset() == before.to_multiset(),
    ensures
        ascending(after),
        after.len() == before.len(),
        forall|m: int| 0 <= m < after.len() ==> before.contains(#[trigger] after[m]),
{
    vstd::seq_lib::to_multiset_len(before);
    vstd::seq_lib::to_multiset_len(after);
    before.lemma_multiset_has_no_duplicates();
    after.lemma_multiset_has_no_duplicates_conv();
    lemma_distinct_non_descending_is_ascending(after);
    assert forall|m: int| 0 <= m < after.len() implies before.contains(#[trigger] after[m]) by {
        assert(after.contains(after[m]));
        vstd::seq_lib::to_multiset_contains(after, after[m]);
        vstd::seq_lib::to_multiset_contains(before, after[m]);
    }
}

/// Whether `a` comes strictly before `b` in the order of key texts.
pub fn text_lt(a: &str, b: &str) -> (r: bool)
    ensures
        r == key_lt(a@, b@),
{
    let mut left = a.chars();
    let mut right = b.chars();
    let ghost mut n: int = 0;
    loop
        invariant
            left.obeys_prophetic_iter_laws(),
            right.obeys_prophetic_iter_laws(),
            0 <= n <= a@.len(),
            n <= b@.len(),
            left.remaining() == a@.skip(n),
            right.remaining() == b@.skip(n),
            key_lt(a@, b@) == key_lt(a@.skip(n), b@.skip(n)),
        decreases a@.len() - n,
    {
        let y = right.next();
        match y {
            None => {
                return false;
            },
            Some(cb) => {
                let x = left.next();
                match x {
                    None => {
                        return true;
                    },
                    Some(ca) => {
                        if ca != cb {
                            return ca < cb;
                        }
                        proof {
                            assert(a@.skip(n).skip(1) == a@.skip(n + 1));
                            assert(b@.skip(n).skip(1) == b@.skip(n + 1));
                            n = n + 1;
                        }
                    },
                }
            },
        }
    }
}

/// With nothing in `placed`, the two sequences together hold what `rest` holds.
proof fn lemma_nothing_placed(placed: Seq<Seq<char>>, rest: Seq<Seq<char>>)
    requires
        placed.len() == 0,
    ensures
        placed.to_multiset().add(rest.to_multiset()) == rest.to_multiset(),
{
    broadcast use vstd::multiset::group_multiset_axioms;

    vstd::seq_lib::to_multiset_len(placed);
    vstd::multiset::lemma_multiset_empty_len(placed.to_multiset());
    assert(placed.to_multiset().add(rest.to_multiset()) =~= rest.to_multiset());
}

/// The sum of two multisets does not depend on their order.
proof fn lemma_add_commutes(a: Multiset<Seq<char>>, b: Multiset<Seq<char>>)
    ensures
        a.add(b) == b.add(a),
{
    broadcast use vstd::multiset::group_multiset_axioms;

    assert(a.add(b) =~= b.add(a));
}

/// Moving the last text of `rest` into `placed` keeps what the two hold together.
proof fn lemma_one_placed(placed: Seq<Seq<char>>, rest: Seq<Seq<char>>, at: int, key: Seq<char>)
    requires
        0 <= at <= placed.len(),
    ensures
        placed.insert(at, key).to_multiset().add(rest.to_multiset()) == placed.to_multiset().add(
            rest.push(key).to_multiset(),
        ),
{
    broadcast use vstd::multiset::group_multiset_axioms;

    vstd::seq_lib::to_multiset_insert(placed, at, key);
    vstd::seq_lib::to_multiset_build(rest, key);
    assert(placed.to_multiset().insert(key).add(rest.to_multiset()) =~= placed.to_multiset().add(
        rest.to_multiset().insert(key),
    ));
}

/// The strings of `keys`, in non-descending order of their texts.
pub fn sort_keys(keys: Vec<String>) -> (sorted: Vec<String>)
    ensures
        non_descending(texts(sorted@)),
        texts(sorted@).to_multiset() == texts(keys@).to_multiset(),
{

    let mut rest = keys;
    let mut sorted: Vec<String> = Vec::new();
    proof {
        lemma_nothing_placed(texts(sorted@), texts(rest@));
    }
    while rest.len() > 0
        invariant
            non_descending(texts(sorted@)),
            texts(sorted@).to_multiset().add(texts(rest@).to_multiset()) == texts(
                keys@,
            ).to_multiset(),
        decreases rest.len(),
    {
        let ghost before = rest@;
        let ghost placed = texts(sorted@);
        let key = rest.pop().unwrap();
        assert(texts(before) =~= texts(rest@).push(key@));
        let mut at: usize = 0;
        while at < sorted.len()
            invariant
                at <= sorted.len(),
                forall|q: int| 0 <= q < at ==> !key_lt(key@, #[trigger] texts(sorted@)[q]),
            ensures
                at <= sorted.len(),
                forall|q: int| 0 <= q < at ==> !key_lt(key@, #[trigger] texts(sorted@)[q]),
                at < sorted.len() ==> key_lt(key@, texts(sorted@)[at as int]),
            decreases sorted.len() - at,
        {
            if text_lt(key.as_str(), sorted[at].as_str()) {
                break;
            }
            at += 1;
        }
        sorted.insert(at, key);
        assert(texts(sorted@) =~= placed.insert(at as int, key@));
        proof {
            lemma_one_placed(placed, texts(rest@), at as int, key@);
        }
        assert(non_descending(texts(sorted@))) by {
            let now = texts(sorted@);
            assert forall|i: int, j: int| 0 <= i < j < now.len() implies !key_lt(
                #[trigger] now[j],
                #[trigger] now[i],
            ) by {
                if j == at {
                    assert(now[i] == placed[i]);
                } else if i == at {
                    assert(now[j] == placed[j - 1]);
                    if j - 1 > at {
                        assert(!key_lt(placed[j - 1], placed[at as int]));
                    } else {
                        lemma_key_lt_irreflexive(placed[at as int]);
                    }
                    lemma_key_lt_then_not_after(key@, placed[at as int], placed[j - 1]);
                    lemma_key_lt_asymmetric(key@, placed[j - 1]);
                } else {
                    let oi = if i < at { i } else { i - 1 };
                    let oj = if j < at { j } else { j - 1 };
                    assert(now[i] == placed[oi] && now[j] == placed[oj]);
                }
            }
        }
    }
    proof {
        lemma_nothing_placed(texts(rest@), texts(sorted@));
        lemma_add_commutes(texts(sorted@).to_multiset(), texts(rest@).to_multiset());
    }
    sorted
}

} // verus!
