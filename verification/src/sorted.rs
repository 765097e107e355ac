//! Sequences of `(key, value)` pairs kept in strictly ascending order of
//! their keys, the mathematical model of every keyed collection in this crate.

use vstd::prelude::*;
use crate::text::{
    compare_text,
    lemma_text_lt_asymmetric,
    lemma_text_lt_total,
    lemma_text_lt_transitive,
    text_lt,
    TextOrder,
};

verus! {

/// A string as contracts see it.
pub type Text = Seq<char>;

/// The keys ascend strictly, so no key occurs twice.
pub open spec fn keys_sorted<V>(s: Seq<(Text, V)>) -> bool {
    forall|i: int, j: int|
        #![trigger s[i], s[j]]
        0 <= i < j < s.len() ==> text_lt(s[i].0, s[j].0)
}

/// Some pair of `s` has the key `k`.
pub open spec fn has_key<V>(s: Seq<(Text, V)>, k: Text) -> bool {
    exists|i: int| 0 <= i < s.len() && (#[trigger] s[i]).0 == k
}

/// The set of keys of `s`.
pub open spec fn key_set<V>(s: Seq<(Text, V)>) -> Set<Text> {
    Set::new(|k: Text| has_key(s, k))
}

/// The number of leading pairs of `s` whose key comes before `k`. In a sorted
/// sequence this is where `k` stands, or where it would have to be inserted.
pub open spec fn rank<V>(s: Seq<(Text, V)>, k: Text) -> int
    decreases s.len(),
{
    if s.len() == 0 {
        0
    } else if text_lt(s[0].0, k) {
        1 + rank(s.drop_first(), k)
    } else {
        0
    }
}

/// `k` stands at its rank in `s`.
pub open spec fn found<V>(s: Seq<(Text, V)>, k: Text) -> bool {
    rank(s, k) < s.len() && s[rank(s, k)].0 == k
}

/// The value stored under `k`, if there is one.
pub open spec fn lookup<V>(s: Seq<(Text, V)>, k: Text) -> Option<V> {
    if found(s, k) {
        Some(s[rank(s, k)].1)
    } else {
        None
    }
}

/// `s` with `v` stored under `k`: in place of the old value where `k` was
/// present, at the position that keeps the keys sorted where it was not.
pub open spec fn upsert<V>(s: Seq<(Text, V)>, k: Text, v: V) -> Seq<(Text, V)> {
    if found(s, k) {
        s.update(rank(s, k), (k, v))
    } else {
        s.insert(rank(s, k), (k, v))
    }
}

/// `s` without the pair stored under `k`.
pub open spec fn without_key<V>(s: Seq<(Text, V)>, k: Text) -> Seq<(Text, V)> {
    if found(s, k) {
        s.remove(rank(s, k))
    } else {
        s
    }
}

/// The pairs of `s` whose key is in `keys`, in their order.
pub open spec fn restricted_to<V>(s: Seq<(Text, V)>, keys: Set<Text>) -> Seq<(Text, V)>
    decreases s.len(),
{
    if s.len() == 0 {
        s
    } else if keys.contains(s.last().0) {
        restricted_to(s.drop_last(), keys).push(s.last())
    } else {
        restricted_to(s.drop_last(), keys)
    }
}

/// The pairs of `s` whose key is not in `keys`, in their order.
pub open spec fn excluding<V>(s: Seq<(Text, V)>, keys: Set<Text>) -> Seq<(Text, V)>
    decreases s.len(),
{
    if s.len() == 0 {
        s
    } else if keys.contains(s.last().0) {
        excluding(s.drop_last(), keys)
    } else {
        excluding(s.drop_last(), keys).push(s.last())
    }
}

/// `s` without every key of `keys`.
pub open spec fn remove_all<V>(s: Seq<(Text, V)>, keys: Seq<Text>) -> Seq<(Text, V)>
    decreases keys.len(),
{
    if keys.len() == 0 {
        s
    } else {
        without_key(remove_all(s, keys.drop_last()), keys.last())
    }
}

/// `s` with `v` stored under every key of `keys`.
pub open spec fn upsert_all<V>(s: Seq<(Text, V)>, keys: Seq<Text>, v: V) -> Seq<(Text, V)>
    decreases keys.len(),
{
    if keys.len() == 0 {
        s
    } else {
        upsert(upsert_all(s, keys.drop_last(), v), keys.last(), v)
    }
}

/// What `rank` counts: every pair before it has a smaller key, and the pair
/// at it, if any, has not.
pub proof fn lemma_rank_bounds<V>(s: Seq<(Text, V)>, k: Text)
    ensures
        0 <= rank(s, k) <= s.len(),
        forall|j: int| 0 <= j < rank(s, k) ==> text_lt((#[trigger] s[j]).0, k),
        rank(s, k) < s.len() ==> !text_lt(s[rank(s, k)].0, k),
    decreases s.len(),
{
    if s.len() > 0 && text_lt(s[0].0, k) {
        let t = s.drop_first();
        lemma_rank_bounds(t, k);
        assert forall|j: int| 0 <= j < rank(s, k) implies text_lt((#[trigger] s[j]).0, k) by {
            if j > 0 {
                assert(s[j] == t[j - 1]);
            }
        }
        if rank(s, k) < s.len() {
            assert(s[rank(s, k)] == t[rank(t, k)]);
        }
    }
}

/// An index that splits `s` into keys before `k` and a key not before `k`
/// is the rank of `k`.
pub proof fn lemma_rank_at<V>(s: Seq<(Text, V)>, k: Text, i: int)
    requires
        0 <= i <= s.len(),
        forall|j: int| 0 <= j < i ==> text_lt((#[trigger] s[j]).0, k),
        i < s.len() ==> !text_lt(s[i].0, k),
    ensures
        rank(s, k) == i,
    decreases i,
{
    if i > 0 {
        let t = s.drop_first();
        assert(text_lt(s[0].0, k));
        assert forall|j: int| 0 <= j < i - 1 implies text_lt((#[trigger] t[j]).0, k) by {
            assert(t[j] == s[j + 1]);
        }
        if i < s.len() {
            assert(t[i - 1] == s[i]);
        }
        lemma_rank_at(t, k, i - 1);
    }
}

/// In a sorted sequence every pair after the rank of `k` has a key after `k`.
pub proof fn lemma_rank_splits<V>(s: Seq<(Text, V)>, k: Text)
    requires
        keys_sorted(s),
    ensures
        forall|j: int| rank(s, k) < j < s.len() ==> text_lt(k, (#[trigger] s[j]).0),
        forall|j: int|
            rank(s, k) <= j < s.len() && !found(s, k) ==> text_lt(k, (#[trigger] s[j]).0),
{
    lemma_rank_bounds(s, k);
    let r = rank(s, k);
    assert forall|j: int| r <= j < s.len() && (j > r || !found(s, k)) implies text_lt(
        k,
        (#[trigger] s[j]).0,
    ) by {
        lemma_text_lt_total(s[r].0, k);
        if j > r {
            assert(text_lt(s[r].0, s[j].0));
            if s[r].0 != k {
                lemma_text_lt_transitive(k, s[r].0, s[j].0);
            }
        }
    }
}

/// In a sorted sequence a key is present exactly when it stands at its rank.
pub proof fn lemma_found_iff_has_key<V>(s: Seq<(Text, V)>, k: Text)
    requires
        keys_sorted(s),
    ensures
        found(s, k) <==> has_key(s, k),
{
    lemma_rank_bounds(s, k);
    lemma_rank_splits(s, k);
    if has_key(s, k) {
        let i = choose|i: int| 0 <= i < s.len() && (#[trigger] s[i]).0 == k;
        let r = rank(s, k);
        if i < r {
            assert(text_lt(s[i].0, k));
            lemma_text_lt_asymmetric(s[i].0, k);
        } else if i > r {
            assert(text_lt(k, s[i].0));
            lemma_text_lt_asymmetric(k, s[i].0);
        }
    } else if found(s, k) {
        assert(s[rank(s, k)].0 == k);
    }
}

/// A sorted sequence holds a key at one index only.
pub proof fn lemma_key_index_unique<V>(s: Seq<(Text, V)>, i: int, j: int)
    requires
        keys_sorted(s),
        0 <= i < s.len(),
        0 <= j < s.len(),
        s[i].0 == s[j].0,
    ensures
        i == j,
{
    if i < j {
        lemma_text_lt_asymmetric(s[i].0, s[j].0);
    } else if j < i {
        lemma_text_lt_asymmetric(s[j].0, s[i].0);
    }
}

/// Storing a value keeps the keys sorted.
pub proof fn lemma_upsert_sorted<V>(s: Seq<(Text, V)>, k: Text, v: V)
    requires
        keys_sorted(s),
    ensures
        keys_sorted(upsert(s, k, v)),
{
    lemma_rank_bounds(s, k);
    lemma_rank_splits(s, k);
    let r = rank(s, k);
    let t = upsert(s, k, v);
    if found(s, k) {
        assert forall|i: int, j: int| 0 <= i < j < t.len() implies text_lt(
            (#[trigger] t[i]).0,
            (#[trigger] t[j]).0,
        ) by {
            assert(t[i].0 == s[i].0);
            assert(t[j].0 == s[j].0);
        }
    } else {
        assert forall|i: int, j: int| 0 <= i < j < t.len() implies text_lt(
            (#[trigger] t[i]).0,
            (#[trigger] t[j]).0,
        ) by {
            if j < r {
                assert(t[i] == s[i] && t[j] == s[j]);
            } else if j == r {
                assert(t[i] == s[i]);
            } else if i < r {
                assert(t[i] == s[i] && t[j] == s[j - 1]);
            } else if i == r {
                assert(t[j] == s[j - 1]);
            } else {
                assert(t[i] == s[i - 1] && t[j] == s[j - 1]);
            }
        }
    }
}

/// After storing `v` under `k`, exactly the old keys and `k` are present.
pub proof fn lemma_upsert_has_key<V>(s: Seq<(Text, V)>, k: Text, v: V, q: Text)
    ensures
        has_key(upsert(s, k, v), q) <==> (q == k || has_key(s, q)),
{
    lemma_rank_bounds(s, k);
    let r = rank(s, k);
    let t = upsert(s, k, v);
    if has_key(t, q) {
        let i = choose|i: int| 0 <= i < t.len() && (#[trigger] t[i]).0 == q;
        if found(s, k) {
            assert(s[i].0 == q);
        } else if i < r {
            assert(s[i].0 == q);
        } else if i > r {
            assert(s[i - 1].0 == q);
        }
    }
    if q == k {
        assert(t[r].0 == q);
    }
    if has_key(s, q) {
        let i = choose|i: int| 0 <= i < s.len() && (#[trigger] s[i]).0 == q;
        if found(s, k) || i < r {
            assert(t[i].0 == q);
        } else {
            assert(t[i + 1] == s[i]);
        }
    }
}

/// After storing `v` under `k`, `k` yields `v` and every other key what it
/// yielded before.
pub proof fn lemma_upsert_lookup<V>(s: Seq<(Text, V)>, k: Text, v: V, q: Text)
    requires
        keys_sorted(s),
    ensures
        lookup(upsert(s, k, v), q) == if q == k {
            Some(v)
        } else {
            lookup(s, q)
        },
{
    let t = upsert(s, k, v);
    let r = rank(s, k);
    lemma_upsert_sorted(s, k, v);
    lemma_rank_bounds(s, k);
    lemma_rank_bounds(s, q);
    lemma_rank_bounds(t, q);
    lemma_found_iff_has_key(s, q);
    lemma_found_iff_has_key(t, q);
    lemma_upsert_has_key(s, k, v, q);
    if q == k {
        assert(t[r].0 == k);
        lemma_key_index_unique(t, r, rank(t, q));
    } else if found(s, q) {
        let i = rank(s, q);
        let j = rank(t, q);
        if found(s, k) || i < r {
            assert(t[i] == s[i]);
            lemma_key_index_unique(t, i, j);
        } else {
            assert(t[i + 1] == s[i]);
            lemma_key_index_unique(t, i + 1, j);
        }
    }
}

/// Removing a key keeps the keys sorted.
pub proof fn lemma_without_key_sorted<V>(s: Seq<(Text, V)>, k: Text)
    requires
        keys_sorted(s),
    ensures
        keys_sorted(without_key(s, k)),
{
    lemma_rank_bounds(s, k);
    let r = rank(s, k);
    let t = without_key(s, k);
    if found(s, k) {
        assert forall|i: int, j: int| 0 <= i < j < t.len() implies text_lt(
            (#[trigger] t[i]).0,
            (#[trigger] t[j]).0,
        ) by {
            let si = if i < r {
                i
            } else {
                i + 1
            };
            let sj = if j < r {
                j
            } else {
                j + 1
            };
            assert(t[i] == s[si] && t[j] == s[sj]);
        }
    }
}

/// After removing `k` from a sorted sequence, exactly the other keys remain.
pub proof fn lemma_without_key_has_key<V>(s: Seq<(Text, V)>, k: Text, q: Text)
    requires
        keys_sorted(s),
    ensures
        has_key(without_key(s, k), q) <==> (q != k && has_key(s, q)),
{
    lemma_rank_bounds(s, k);
    lemma_found_iff_has_key(s, k);
    let r = rank(s, k);
    let t = without_key(s, k);
    if found(s, k) {
        if has_key(t, q) {
            let i = choose|i: int| 0 <= i < t.len() && (#[trigger] t[i]).0 == q;
            let si = if i < r {
                i
            } else {
                i + 1
            };
            assert(t[i] == s[si]);
            if q == k {
                lemma_key_index_unique(s, si, r);
            }
        }
        if q != k && has_key(s, q) {
            let i = choose|i: int| 0 <= i < s.len() && (#[trigger] s[i]).0 == q;
            if i < r {
                assert(t[i] == s[i]);
            } else {
                assert(t[i - 1] == s[i]);
            }
        }
    }
}

/// After removing `k`, `k` yields nothing and every other key what it yielded
/// before.
pub proof fn lemma_without_key_lookup<V>(s: Seq<(Text, V)>, k: Text, q: Text)
    requires
        keys_sorted(s),
    ensures
        lookup(without_key(s, k), q) == if q == k {
            None
        } else {
            lookup(s, q)
        },
{
    let t = without_key(s, k);
    let r = rank(s, k);
    lemma_without_key_sorted(s, k);
    lemma_rank_bounds(s, k);
    lemma_rank_bounds(s, q);
    lemma_rank_bounds(t, q);
    lemma_found_iff_has_key(s, q);
    lemma_found_iff_has_key(t, q);
    lemma_without_key_has_key(s, k, q);
    if q != k && found(s, q) && found(s, k) {
        let i = rank(s, q);
        let j = rank(t, q);
        if i < r {
            assert(t[i] == s[i]);
            lemma_key_index_unique(t, i, j);
        } else {
            assert(t[i - 1] == s[i]);
            lemma_key_index_unique(t, i - 1, j);
        }
    }
}

/// A key is among the pairs restricted to `keys` exactly when it is in `keys`
/// and among the pairs of `s`.
pub proof fn lemma_restricted_has_key<V>(s: Seq<(Text, V)>, keys: Set<Text>, q: Text)
    ensures
        has_key(restricted_to(s, keys), q) <==> (keys.contains(q) && has_key(s, q)),
    decreases s.len(),
{
    if s.len() > 0 {
        let head = s.drop_last();
        let t = restricted_to(s, keys);
        let th = restricted_to(head, keys);
        lemma_restricted_has_key(head, keys, q);
        if has_key(t, q) {
            let i = choose|i: int| 0 <= i < t.len() && (#[trigger] t[i]).0 == q;
            if i < th.len() {
                assert(th[i].0 == q);
                let j = choose|j: int| 0 <= j < head.len() && (#[trigger] head[j]).0 == q;
                assert(s[j].0 == q);
            } else {
                assert(s[s.len() - 1].0 == q);
            }
        }
        if keys.contains(q) && has_key(s, q) {
            let j = choose|j: int| 0 <= j < s.len() && (#[trigger] s[j]).0 == q;
            if j < head.len() {
                assert(head[j].0 == q);
                let i = choose|i: int| 0 <= i < th.len() && (#[trigger] th[i]).0 == q;
                assert(t[i].0 == q);
            } else {
                assert(t[t.len() - 1].0 == q);
            }
        }
    }
}

/// A key is among the pairs that exclude `keys` exactly when it is not in
/// `keys` and among the pairs of `s`.
pub proof fn lemma_excluding_has_key<V>(s: Seq<(Text, V)>, keys: Set<Text>, q: Text)
    ensures
        has_key(excluding(s, keys), q) <==> (!keys.contains(q) && has_key(s, q)),
    decreases s.len(),
{
    if s.len() > 0 {
        let head = s.drop_last();
        let t = excluding(s, keys);
        let th = excluding(head, keys);
        lemma_excluding_has_key(head, keys, q);
        if has_key(t, q) {
            let i = choose|i: int| 0 <= i < t.len() && (#[trigger] t[i]).0 == q;
            if i < th.len() {
                assert(th[i].0 == q);
                let j = choose|j: int| 0 <= j < head.len() && (#[trigger] head[j]).0 == q;
                assert(s[j].0 == q);
            } else {
                assert(s[s.len() - 1].0 == q);
            }
        }
        if !keys.contains(q) && has_key(s, q) {
            let j = choose|j: int| 0 <= j < s.len() && (#[trigger] s[j]).0 == q;
            if j < head.len() {
                assert(head[j].0 == q);
                let i = choose|i: int| 0 <= i < th.len() && (#[trigger] th[i]).0 == q;
                assert(t[i].0 == q);
            } else {
                assert(t[t.len() - 1].0 == q);
            }
        }
    }
}

/// Restricting to a set that holds every key changes nothing; restricting to
/// one that holds none leaves nothing.
pub proof fn lemma_restricted_all_or_none<V>(s: Seq<(Text, V)>, keys: Set<Text>)
    ensures
        (forall|i: int| 0 <= i < s.len() ==> keys.contains((#[trigger] s[i]).0)) ==> restricted_to(
            s,
            keys,
        ) == s && excluding(s, keys).len() == 0,
        (forall|i: int| 0 <= i < s.len() ==> !keys.contains((#[trigger] s[i]).0))
            ==> restricted_to(s, keys).len() == 0 && excluding(s, keys) == s,
    decreases s.len(),
{
    if s.len() > 0 {
        let head = s.drop_last();
        lemma_restricted_all_or_none(head, keys);
        assert(s =~= head.push(s.last()));
        assert forall|i: int| 0 <= i < head.len() implies head[i] == s[i] by {}
        if forall|i: int| 0 <= i < s.len() ==> keys.contains((#[trigger] s[i]).0) {
            assert(keys.contains(s[s.len() - 1].0));
            assert forall|i: int| 0 <= i < head.len() implies keys.contains(
                (#[trigger] head[i]).0,
            ) by {
                assert(head[i] == s[i]);
            }
        }
        if forall|i: int| 0 <= i < s.len() ==> !keys.contains((#[trigger] s[i]).0) {
            assert(!keys.contains(s[s.len() - 1].0));
            assert forall|i: int| 0 <= i < head.len() implies !keys.contains(
                (#[trigger] head[i]).0,
            ) by {
                assert(head[i] == s[i]);
            }
        }
    }
}

/// Every pair of `s` is either kept by `restricted_to` or by `excluding`.
pub proof fn lemma_partition_len<V>(s: Seq<(Text, V)>, keys: Set<Text>)
    ensures
        restricted_to(s, keys).len() + excluding(s, keys).len() == s.len(),
    decreases s.len(),
{
    if s.len() > 0 {
        lemma_partition_len(s.drop_last(), keys);
    }
}

/// A key is in a sequence exactly when it is its last item or in the items
/// before it.
pub proof fn lemma_contains_last(keys: Seq<Text>, q: Text)
    requires
        keys.len() > 0,
    ensures
        keys.contains(q) <==> (keys.last() == q || keys.drop_last().contains(q)),
{
    let head = keys.drop_last();
    if keys.contains(q) {
        let i = choose|i: int| 0 <= i < keys.len() && keys[i] == q;
        if i < head.len() {
            assert(head[i] == q);
        }
    }
    if head.contains(q) {
        let i = choose|i: int| 0 <= i < head.len() && head[i] == q;
        assert(keys[i] == q);
    }
    if keys.last() == q {
        assert(keys[keys.len() - 1] == q);
    }
}

/// Removing keys keeps the keys sorted.
pub proof fn lemma_remove_all_sorted<V>(s: Seq<(Text, V)>, keys: Seq<Text>)
    requires
        keys_sorted(s),
    ensures
        keys_sorted(remove_all(s, keys)),
    decreases keys.len(),
{
    if keys.len() > 0 {
        lemma_remove_all_sorted(s, keys.drop_last());
        lemma_without_key_sorted(remove_all(s, keys.drop_last()), keys.last());
    }
}

/// After removing `keys`, every one of them yields nothing and every other
/// key what it yielded before.
pub proof fn lemma_remove_all_lookup<V>(s: Seq<(Text, V)>, keys: Seq<Text>, q: Text)
    requires
        keys_sorted(s),
    ensures
        lookup(remove_all(s, keys), q) == if keys.contains(q) {
            None
        } else {
            lookup(s, q)
        },
        has_key(remove_all(s, keys), q) <==> (!keys.contains(q) && has_key(s, q)),
    decreases keys.len(),
{
    lemma_found_iff_has_key(s, q);
    if keys.len() > 0 {
        let head = keys.drop_last();
        lemma_remove_all_sorted(s, head);
        lemma_remove_all_lookup(s, head, q);
        lemma_without_key_lookup(remove_all(s, head), keys.last(), q);
        lemma_without_key_has_key(remove_all(s, head), keys.last(), q);
        lemma_contains_last(keys, q);
    }
}

/// Storing keys keeps the keys sorted.
pub proof fn lemma_upsert_all_sorted<V>(s: Seq<(Text, V)>, keys: Seq<Text>, v: V)
    requires
        keys_sorted(s),
    ensures
        keys_sorted(upsert_all(s, keys, v)),
    decreases keys.len(),
{
    if keys.len() > 0 {
        lemma_upsert_all_sorted(s, keys.drop_last(), v);
        lemma_upsert_sorted(upsert_all(s, keys.drop_last(), v), keys.last(), v);
    }
}

/// After storing `v` under `keys`, every one of them yields `v` and every
/// other key what it yielded before.
pub proof fn lemma_upsert_all_lookup<V>(s: Seq<(Text, V)>, keys: Seq<Text>, v: V, q: Text)
    requires
        keys_sorted(s),
    ensures
        lookup(upsert_all(s, keys, v), q) == if keys.contains(q) {
            Some(v)
        } else {
            lookup(s, q)
        },
        has_key(upsert_all(s, keys, v), q) <==> (keys.contains(q) || has_key(s, q)),
    decreases keys.len(),
{
    if keys.len() > 0 {
        let head = keys.drop_last();
        lemma_upsert_all_sorted(s, head, v);
        lemma_upsert_all_lookup(s, head, v, q);
        lemma_upsert_lookup(upsert_all(s, head, v), keys.last(), v, q);
        lemma_upsert_has_key(upsert_all(s, head, v), keys.last(), v, q);
        lemma_contains_last(keys, q);
    }
}

/// Removing a key that is not present changes nothing.
pub proof fn lemma_without_absent_key<V>(s: Seq<(Text, V)>, k: Text)
    requires
        keys_sorted(s),
        !has_key(s, k),
    ensures
        without_key(s, k) == s,
{
    lemma_found_iff_has_key(s, k);
}

/// Every pair kept by `restricted_to` or by `excluding` is a pair of `s`, and
/// the pairs are kept in their order.
pub proof fn lemma_selection_sorted<V>(s: Seq<(Text, V)>, keys: Set<Text>)
    requires
        keys_sorted(s),
    ensures
        keys_sorted(restricted_to(s, keys)),
        keys_sorted(excluding(s, keys)),
        forall|i: int|
            0 <= i < restricted_to(s, keys).len() ==> s.contains(
                #[trigger] restricted_to(s, keys)[i],
            ),
        forall|i: int|
            0 <= i < excluding(s, keys).len() ==> s.contains(#[trigger] excluding(s, keys)[i]),
    decreases s.len(),
{
    if s.len() > 0 {
        let head = s.drop_last();
        let last = s.last();
        assert forall|i: int, j: int| 0 <= i < j < head.len() implies text_lt(
            (#[trigger] head[i]).0,
            (#[trigger] head[j]).0,
        ) by {
            assert(head[i] == s[i] && head[j] == s[j]);
        }
        lemma_selection_sorted(head, keys);
        let r = restricted_to(s, keys);
        let rh = restricted_to(head, keys);
        let e = excluding(s, keys);
        let eh = excluding(head, keys);
        assert forall|i: int| 0 <= i < rh.len() implies s.contains(#[trigger] rh[i]) && text_lt(
            rh[i].0,
            last.0,
        ) by {
            let j = choose|j: int| 0 <= j < head.len() && head[j] == rh[i];
            assert(s[j] == rh[i]);
            assert(s[s.len() - 1] == last);
        }
        assert forall|i: int| 0 <= i < eh.len() implies s.contains(#[trigger] eh[i]) && text_lt(
            eh[i].0,
            last.0,
        ) by {
            let j = choose|j: int| 0 <= j < head.len() && head[j] == eh[i];
            assert(s[j] == eh[i]);
            assert(s[s.len() - 1] == last);
        }
        assert(s[s.len() - 1] == last);
        assert forall|i: int| 0 <= i < r.len() implies s.contains(#[trigger] r[i]) by {
            if i < rh.len() {
                assert(r[i] == rh[i]);
            }
        }
        assert forall|i: int| 0 <= i < e.len() implies s.contains(#[trigger] e[i]) by {
            if i < eh.len() {
                assert(e[i] == eh[i]);
            }
        }
        assert forall|i: int, j: int| 0 <= i < j < r.len() implies text_lt(
            (#[trigger] r[i]).0,
            (#[trigger] r[j]).0,
        ) by {
            assert(r[i] == rh[i]);
            if j < rh.len() {
                assert(r[j] == rh[j]);
            }
        }
        assert forall|i: int, j: int| 0 <= i < j < e.len() implies text_lt(
            (#[trigger] e[i]).0,
            (#[trigger] e[j]).0,
        ) by {
            assert(e[i] == eh[i]);
            if j < eh.len() {
                assert(e[j] == eh[j]);
            }
        }
    }
}

/// An item that is kept under a key of its own.
pub trait Keyed {
    /// What is stored under the key.
    type Value;

    /// The item as a pair of its key and its value.
    spec fn pair(&self) -> (Text, Self::Value);

    /// The key of the item.
    fn key(&self) -> (k: &String)
        ensures
            k@ == self.pair().0,
    ;
}

/// The pairs of the items of `v`, in their order.
pub open spec fn pairs<T: Keyed>(v: Seq<T>) -> Seq<(Text, T::Value)> {
    Seq::new(v.len(), |i: int| v[i].pair())
}

/// Finds `key` among items that are sorted by their keys, by bisection. The
/// result is the rank of `key`, and whether `key` stands there.
pub fn search<T: Keyed>(v: &Vec<T>, key: &str) -> (r: (usize, bool))
    requires
        keys_sorted(pairs(v@)),
    ensures
        r.0 == rank(pairs(v@), key@),
        r.1 == found(pairs(v@), key@),
        r.1 == has_key(pairs(v@), key@),
        r.0 <= v.len(),
        r.1 ==> r.0 < v.len() && v@[r.0 as int].pair().0 == key@,
{
    let ghost s = pairs(v@);
    let mut lo: usize = 0;
    let mut hi: usize = v.len();
    proof {
        lemma_found_iff_has_key(s, key@);
    }
    while lo < hi
        invariant
            lo <= hi <= v.len(),
            s == pairs(v@),
            keys_sorted(s),
            forall|j: int| 0 <= j < lo ==> text_lt((#[trigger] s[j]).0, key@),
            forall|j: int| hi <= j < s.len() ==> text_lt(key@, (#[trigger] s[j]).0),
        decreases hi - lo,
    {
        let mid = lo + (hi - lo) / 2;
        let here = v[mid].key();
        assert(here@ == s[mid as int].0);
        match compare_text(here.as_str(), key) {
            TextOrder::Before => {
                proof {
                    assert forall|j: int| 0 <= j < mid + 1 implies text_lt(
                        (#[trigger] s[j]).0,
                        key@,
                    ) by {
                        if j < mid {
                            assert(text_lt(s[j].0, s[mid as int].0));
                            lemma_text_lt_transitive(s[j].0, s[mid as int].0, key@);
                        }
                    }
                }
                lo = mid + 1;
            },
            TextOrder::Same => {
                proof {
                    assert forall|j: int| 0 <= j < mid implies text_lt(
                        (#[trigger] s[j]).0,
                        key@,
                    ) by {
                        assert(text_lt(s[j].0, s[mid as int].0));
                    }
                    crate::text::lemma_text_lt_irreflexive(key@);
                    lemma_rank_at(s, key@, mid as int);
                }
                return (mid, true);
            },
            TextOrder::After => {
                proof {
                    lemma_text_lt_total(s[mid as int].0, key@);
                    assert forall|j: int| mid <= j < s.len() implies text_lt(
                        key@,
                        (#[trigger] s[j]).0,
                    ) by {
                        if j > mid {
                            assert(text_lt(s[mid as int].0, s[j].0));
                            lemma_text_lt_transitive(key@, s[mid as int].0, s[j].0);
                        }
                    }
                }
                hi = mid;
            },
        }
    }
    proof {
        if lo < s.len() {
            lemma_text_lt_asymmetric(key@, s[lo as int].0);
        }
        lemma_rank_at(s, key@, lo as int);
    }
    (lo, false)
}

/// What holds of every value of `s` and of `v` holds of every value once `v`
/// is stored.
pub proof fn lemma_upsert_values<V>(s: Seq<(Text, V)>, k: Text, v: V, p: spec_fn(V) -> bool)
    requires
        forall|i: int| 0 <= i < s.len() ==> p((#[trigger] s[i]).1),
        p(v),
    ensures
        forall|i: int| 0 <= i < upsert(s, k, v).len() ==> p((#[trigger] upsert(s, k, v)[i]).1),
{
    lemma_rank_bounds(s, k);
    let r = rank(s, k);
    let t = upsert(s, k, v);
    assert forall|i: int| 0 <= i < t.len() implies p((#[trigger] t[i]).1) by {
        if i == r {
        } else if found(s, k) || i < r {
            assert(t[i] == s[i]);
        } else {
            assert(t[i] == s[i - 1]);
        }
    }
}

/// In a sorted sequence that ends with `x`, `x` is found under its key and
/// every other key where it was found before `x` was added.
pub proof fn lemma_lookup_push<V>(t: Seq<(Text, V)>, x: (Text, V), q: Text)
    requires
        keys_sorted(t.push(x)),
    ensures
        keys_sorted(t),
        lookup(t.push(x), q) == if q == x.0 {
            Some(x.1)
        } else {
            lookup(t, q)
        },
        has_key(t.push(x), q) <==> (q == x.0 || has_key(t, q)),
{
    let s = t.push(x);
    assert forall|i: int, j: int| 0 <= i < j < t.len() implies text_lt(
        (#[trigger] t[i]).0,
        (#[trigger] t[j]).0,
    ) by {
        assert(s[i] == t[i] && s[j] == t[j]);
    }
    lemma_found_iff_has_key(s, q);
    lemma_found_iff_has_key(t, q);
    lemma_rank_bounds(s, q);
    lemma_rank_bounds(t, q);
    assert(s[t.len() as int] == x);
    if has_key(t, q) {
        let i = choose|i: int| 0 <= i < t.len() && (#[trigger] t[i]).0 == q;
        assert(s[i].0 == q);
    }
    if has_key(s, q) {
        let i = choose|i: int| 0 <= i < s.len() && (#[trigger] s[i]).0 == q;
        if i < t.len() {
            assert(t[i].0 == q);
        }
    }
    if q == x.0 {
        lemma_key_index_unique(s, rank(s, q), t.len() as int);
    } else if has_key(t, q) {
        assert(s[rank(t, q)] == t[rank(t, q)]);
        lemma_key_index_unique(s, rank(s, q), rank(t, q));
    }
}

/// What a sorted sequence yields for every key decides the sequence: two
/// sorted sequences that yield the same for every key are the same.
pub proof fn lemma_sorted_unique<V>(a: Seq<(Text, V)>, b: Seq<(Text, V)>)
    requires
        keys_sorted(a),
        keys_sorted(b),
        forall|k: Text| lookup(a, k) == lookup(b, k),
    ensures
        a == b,
    decreases a.len() + b.len(),
{
    if a.len() == 0 || b.len() == 0 {
        if a.len() > 0 {
            lemma_found_iff_has_key(a, a[0].0);
            lemma_rank_bounds(b, a[0].0);
            assert(lookup(a, a[0].0) is Some);
        }
        if b.len() > 0 {
            lemma_found_iff_has_key(b, b[0].0);
            lemma_rank_bounds(a, b[0].0);
            assert(lookup(b, b[0].0) is Some);
        }
        assert(a =~= b);
    } else {
        let x = a.last();
        let y = b.last();
        let a0 = a.drop_last();
        let b0 = b.drop_last();
        assert(a =~= a0.push(x));
        assert(b =~= b0.push(y));
        lemma_lookup_push(a0, x, x.0);
        lemma_lookup_push(b0, y, y.0);
        lemma_lookup_push(a0, x, y.0);
        lemma_lookup_push(b0, y, x.0);
        // The last key of each is held by the other, so neither is larger.
        lemma_found_iff_has_key(a, y.0);
        lemma_found_iff_has_key(b, x.0);
        assert(has_key(a, y.0));
        assert(has_key(b, x.0));
        let i = choose|i: int| 0 <= i < a.len() && (#[trigger] a[i]).0 == y.0;
        let j = choose|j: int| 0 <= j < b.len() && (#[trigger] b[j]).0 == x.0;
        if i < a.len() - 1 {
            assert(text_lt(a[i].0, a[a.len() - 1].0));
        }
        if j < b.len() - 1 {
            assert(text_lt(b[j].0, b[b.len() - 1].0));
        }
        if x.0 != y.0 {
            lemma_text_lt_asymmetric(y.0, x.0);
        }
        assert(x == y);
        assert forall|k: Text| lookup(a0, k) == lookup(b0, k) by {
            lemma_lookup_push(a0, x, k);
            lemma_lookup_push(b0, y, k);
            if k == x.0 {
                lemma_found_iff_has_key(a0, k);
                lemma_found_iff_has_key(b0, k);
                if has_key(a0, k) {
                    let p = choose|p: int| 0 <= p < a0.len() && (#[trigger] a0[p]).0 == k;
                    assert(a[p] == a0[p]);
                    lemma_key_index_unique(a, p, a.len() - 1);
                }
                if has_key(b0, k) {
                    let p = choose|p: int| 0 <= p < b0.len() && (#[trigger] b0[p]).0 == k;
                    assert(b[p] == b0[p]);
                    lemma_key_index_unique(b, p, b.len() - 1);
                }
            }
        }
        lemma_sorted_unique(a0, b0);
    }
}

} // verus!
