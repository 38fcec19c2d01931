//! Sequences of records with integer keys, seen as maps, and sequences of
//! pairs seen as sets.

use vstd::prelude::*;

verus! {

/// The map from key to record of a sequence (a later record wins).
pub open spec fn keyed_map<T>(s: Seq<T>, key: spec_fn(T) -> i64) -> Map<i64, T>
    decreases s.len(),
{
    if s.len() == 0 {
        Map::empty()
    } else {
        keyed_map(s.drop_last(), key).insert(key(s.last()), s.last())
    }
}

/// No two records share a key.
pub open spec fn unique_keys<T>(s: Seq<T>, key: spec_fn(T) -> i64) -> bool {
    forall|i: int, j: int| 0 <= i < j < s.len() ==> key(#[trigger] s[i]) != key(#[trigger] s[j])
}

/// Some record has key `k`.
pub open spec fn has_key<T>(s: Seq<T>, key: spec_fn(T) -> i64, k: i64) -> bool {
    exists|i: int| 0 <= i < s.len() && key(#[trigger] s[i]) == k
}

/// The keys of the map are the keys of the records.
pub proof fn lemma_keyed_dom<T>(s: Seq<T>, key: spec_fn(T) -> i64, k: i64)
    ensures
        keyed_map(s, key).dom().contains(k) <==> has_key(s, key, k),
    decreases s.len(),
{
    if s.len() > 0 {
        lemma_keyed_dom(s.drop_last(), key, k);
        if has_key(s, key, k) {
            let i = choose|i: int| 0 <= i < s.len() && key(#[trigger] s[i]) == k;
            if i < s.len() - 1 {
                assert(key(s.drop_last()[i]) == k);
            }
        }
        if has_key(s.drop_last(), key, k) {
            let i = choose|i: int| 0 <= i < s.drop_last().len() && key(#[trigger] s.drop_last()[i]) == k;
            assert(key(s[i]) == k);
        }
        if key(s.last()) == k {
            assert(key(s[s.len() - 1]) == k);
        }
    }
}

/// With unique keys, the map sends each record's key to the record.
pub proof fn lemma_keyed_val<T>(s: Seq<T>, key: spec_fn(T) -> i64, i: int)
    requires
        unique_keys(s, key),
        0 <= i < s.len(),
    ensures
        keyed_map(s, key).dom().contains(key(s[i])),
        keyed_map(s, key)[key(s[i])] == s[i],
    decreases s.len(),
{
    if i < s.len() - 1 {
        let t = s.drop_last();
        assert(t[i] == s[i]);
        assert(unique_keys(t, key)) by {
            assert forall|a: int, b: int| 0 <= a < b < t.len() implies key(#[trigger] t[a]) != key(
                #[trigger] t[b],
            ) by {
                assert(t[a] == s[a] && t[b] == s[b]);
            }
        }
        lemma_keyed_val(t, key, i);
        assert(key(s[i]) != key(s[s.len() - 1]));
    }
}

/// Every record of the map is a record of the sequence.
pub proof fn lemma_keyed_origin<T>(s: Seq<T>, key: spec_fn(T) -> i64, k: i64)
    requires
        keyed_map(s, key).dom().contains(k),
    ensures
        exists|i: int| 0 <= i < s.len() && key(#[trigger] s[i]) == k && s[i] == keyed_map(s, key)[k],
    decreases s.len(),
{
    if key(s.last()) == k {
        assert(key(s[s.len() - 1]) == k);
    } else {
        let t = s.drop_last();
        lemma_keyed_origin(t, key, k);
        let i = choose|i: int| 0 <= i < t.len() && key(#[trigger] t[i]) == k && t[i] == keyed_map(t, key)[k];
        assert(s[i] == t[i]);
    }
}

/// Replacing a record by one with the same key updates the map.
pub proof fn lemma_keyed_update<T>(s: Seq<T>, key: spec_fn(T) -> i64, i: int, v: T)
    requires
        0 <= i < s.len(),
        key(v) == key(s[i]),
        unique_keys(s, key),
    ensures
        keyed_map(s.update(i, v), key) == keyed_map(s, key).insert(key(v), v),
        unique_keys(s.update(i, v), key),
    decreases s.len(),
{
    let u = s.update(i, v);
    assert forall|a: int, b: int| 0 <= a < b < u.len() implies key(#[trigger] u[a]) != key(
        #[trigger] u[b],
    ) by {
        assert(key(u[a]) == key(s[a]) && key(u[b]) == key(s[b]));
    }
    if i == s.len() - 1 {
        assert(u.drop_last() =~= s.drop_last());
        assert(keyed_map(u, key) =~= keyed_map(s, key).insert(key(v), v));
    } else {
        let t = s.drop_last();
        assert(unique_keys(t, key)) by {
            assert forall|a: int, b: int| 0 <= a < b < t.len() implies key(#[trigger] t[a]) != key(
                #[trigger] t[b],
            ) by {
                assert(t[a] == s[a] && t[b] == s[b]);
            }
        }
        lemma_keyed_update(t, key, i, v);
        assert(u.drop_last() =~= t.update(i, v));
        assert(key(s.last()) != key(v)) by {
            assert(key(s[i]) != key(s[s.len() - 1]));
        }
        assert(keyed_map(u, key) =~= keyed_map(s, key).insert(key(v), v));
    }
}

/// Appending a record with a new key keeps keys unique.
pub proof fn lemma_unique_push<T>(s: Seq<T>, key: spec_fn(T) -> i64, v: T)
    requires
        unique_keys(s, key),
        !has_key(s, key, key(v)),
    ensures
        unique_keys(s.push(v), key),
{
    let u = s.push(v);
    assert forall|a: int, b: int| 0 <= a < b < u.len() implies key(#[trigger] u[a]) != key(
        #[trigger] u[b],
    ) by {
        if b == s.len() {
            if key(s[a]) == key(v) {
                assert(has_key(s, key, key(v)));
            }
        } else {
            assert(u[a] == s[a] && u[b] == s[b]);
        }
    }
}

/// Applying a key-preserving function to every record applies it to every
/// value of the map.
pub proof fn lemma_keyed_map_values<T>(s: Seq<T>, t: Seq<T>, key: spec_fn(T) -> i64, f: spec_fn(T) -> T)
    requires
        s.len() == t.len(),
        forall|i: int| 0 <= i < s.len() ==> t[i] == f(#[trigger] s[i]),
        forall|x: T| key(#[trigger] f(x)) == key(x),
    ensures
        keyed_map(t, key) == Map::new(
            |k: i64| keyed_map(s, key).dom().contains(k),
            |k: i64| f(keyed_map(s, key)[k]),
        ),
    decreases s.len(),
{
    if s.len() > 0 {
        let s2 = s.drop_last();
        let t2 = t.drop_last();
        assert forall|i: int| 0 <= i < s2.len() implies t2[i] == f(#[trigger] s2[i]) by {
            assert(t2[i] == t[i] && s2[i] == s[i]);
        }
        lemma_keyed_map_values(s2, t2, key, f);
        assert(t.last() == f(s[s.len() - 1]));
        assert(keyed_map(t, key) =~= Map::new(
            |k: i64| keyed_map(s, key).dom().contains(k),
            |k: i64| f(keyed_map(s, key)[k]),
        ));
    } else {
        assert(keyed_map(t, key) =~= Map::new(
            |k: i64| keyed_map(s, key).dom().contains(k),
            |k: i64| f(keyed_map(s, key)[k]),
        ));
    }
}

/// The records of `s` that satisfy `p`, in order.
pub open spec fn keep_seq<T>(s: Seq<T>, p: spec_fn(T) -> bool) -> Seq<T>
    decreases s.len(),
{
    if s.len() == 0 {
        Seq::empty()
    } else if p(s.last()) {
        keep_seq(s.drop_last(), p).push(s.last())
    } else {
        keep_seq(s.drop_last(), p)
    }
}

/// Every kept record comes from `s`.
pub proof fn lemma_keep_from<T>(s: Seq<T>, p: spec_fn(T) -> bool)
    ensures
        forall|x: T| #[trigger] keep_seq(s, p).contains(x) <==> (s.contains(x) && p(x)),
        keep_seq(s, p).len() <= s.len(),
    decreases s.len(),
{
    if s.len() > 0 {
        let s2 = s.drop_last();
        lemma_keep_from(s2, p);
        assert forall|x: T| #[trigger] keep_seq(s, p).contains(x) <==> (s.contains(x) && p(x)) by {
            if s.contains(x) {
                let k = choose|k: int| 0 <= k < s.len() && s[k] == x;
                if k < s.len() - 1 {
                    assert(s2[k] == x);
                }
            }
            if s2.contains(x) {
                let k = choose|k: int| 0 <= k < s2.len() && s2[k] == x;
                assert(s[k] == x);
            }
            if p(s.last()) {
                let k2 = keep_seq(s2, p);
                if keep_seq(s, p).contains(x) {
                    let k = choose|k: int| 0 <= k < keep_seq(s, p).len() && keep_seq(s, p)[k] == x;
                    if k < k2.len() {
                        assert(k2[k] == x);
                    } else {
                        assert(x == s.last());
                        assert(s[s.len() - 1] == x);
                    }
                }
                if k2.contains(x) {
                    let k = choose|k: int| 0 <= k < k2.len() && k2[k] == x;
                    assert(keep_seq(s, p)[k] == x);
                }
                if x == s.last() {
                    assert(keep_seq(s, p)[k2.len() as int] == x);
                }
            }
        }
    }
}

/// Keeping records keeps keys unique.
pub proof fn lemma_keep_unique<T>(s: Seq<T>, key: spec_fn(T) -> i64, p: spec_fn(T) -> bool)
    requires
        unique_keys(s, key),
    ensures
        unique_keys(keep_seq(s, p), key),
    decreases s.len(),
{
    if s.len() > 0 {
        let s2 = s.drop_last();
        assert(unique_keys(s2, key)) by {
            assert forall|a: int, b: int| 0 <= a < b < s2.len() implies key(#[trigger] s2[a]) != key(
                #[trigger] s2[b],
            ) by {
                assert(s2[a] == s[a] && s2[b] == s[b]);
            }
        }
        lemma_keep_unique(s2, key, p);
        if p(s.last()) {
            lemma_keep_from(s2, p);
            if has_key(keep_seq(s2, p), key, key(s.last())) {
                let k = choose|k: int|
                    0 <= k < keep_seq(s2, p).len() && key(#[trigger] keep_seq(s2, p)[k]) == key(s.last());
                assert(keep_seq(s2, p).contains(keep_seq(s2, p)[k]));
                assert(s2.contains(keep_seq(s2, p)[k]));
                let j = choose|j: int| 0 <= j < s2.len() && s2[j] == keep_seq(s2, p)[k];
                assert(key(s[j]) != key(s[s.len() - 1]));
            }
            lemma_unique_push(keep_seq(s2, p), key, s.last());
        }
    }
}

/// Keeping the records that satisfy `p` restricts the map to them.
pub proof fn lemma_keep_map<T>(s: Seq<T>, key: spec_fn(T) -> i64, p: spec_fn(T) -> bool)
    requires
        unique_keys(s, key),
    ensures
        keyed_map(keep_seq(s, p), key) == Map::new(
            |k: i64| keyed_map(s, key).dom().contains(k) && p(keyed_map(s, key)[k]),
            |k: i64| keyed_map(s, key)[k],
        ),
    decreases s.len(),
{
    if s.len() > 0 {
        let s2 = s.drop_last();
        assert(unique_keys(s2, key)) by {
            assert forall|a: int, b: int| 0 <= a < b < s2.len() implies key(#[trigger] s2[a]) != key(
                #[trigger] s2[b],
            ) by {
                assert(s2[a] == s[a] && s2[b] == s[b]);
            }
        }
        lemma_keep_map(s2, key, p);
        let last = s.last();
        assert(!keyed_map(s2, key).dom().contains(key(last))) by {
            lemma_keyed_dom(s2, key, key(last));
            if has_key(s2, key, key(last)) {
                let j = choose|j: int| 0 <= j < s2.len() && key(#[trigger] s2[j]) == key(last);
                assert(key(s[j]) != key(s[s.len() - 1]));
            }
        }
        let m = keyed_map(s, key);
        assert(m == keyed_map(s2, key).insert(key(last), last));
        if p(last) {
            assert(keep_seq(s, p) == keep_seq(s2, p).push(last));
            assert(keep_seq(s2, p).push(last).drop_last() =~= keep_seq(s2, p));
            assert(keyed_map(keep_seq(s, p), key) == keyed_map(keep_seq(s2, p), key).insert(
                key(last),
                last,
            ));
        } else {
            assert(keep_seq(s, p) == keep_seq(s2, p));
        }
        assert(keyed_map(keep_seq(s, p), key) =~= Map::new(
            |k: i64| keyed_map(s, key).dom().contains(k) && p(keyed_map(s, key)[k]),
            |k: i64| keyed_map(s, key)[k],
        ));
    } else {
        assert(keyed_map(keep_seq(s, p), key) =~= Map::new(
            |k: i64| keyed_map(s, key).dom().contains(k) && p(keyed_map(s, key)[k]),
            |k: i64| keyed_map(s, key)[k],
        ));
    }
}

/// Keeping elements keeps a sequence free of repeats.
pub proof fn lemma_keep_no_dup<T>(s: Seq<T>, p: spec_fn(T) -> bool)
    requires
        s.no_duplicates(),
    ensures
        keep_seq(s, p).no_duplicates(),
    decreases s.len(),
{
    if s.len() > 0 {
        let s2 = s.drop_last();
        assert(s2.no_duplicates()) by {
            assert forall|a: int, b: int| 0 <= a < s2.len() && 0 <= b < s2.len() && a != b implies s2[a]
                != s2[b] by {
                assert(s2[a] == s[a] && s2[b] == s[b]);
            }
        }
        lemma_keep_no_dup(s2, p);
        lemma_keep_from(s2, p);
        if p(s.last()) {
            let k2 = keep_seq(s2, p);
            let k = k2.push(s.last());
            assert forall|a: int, b: int| 0 <= a < k.len() && 0 <= b < k.len() && a != b implies k[a]
                != k[b] by {
                if a == k2.len() || b == k2.len() {
                    let other = if a == k2.len() {
                        b
                    } else {
                        a
                    };
                    assert(k2.contains(k2[other]));
                    if k2[other] == s.last() {
                        let j = choose|j: int| 0 <= j < s2.len() && s2[j] == k2[other];
                        assert(s[j] == s[s.len() - 1]);
                    }
                }
            }
        }
    }
}

/// Number of `false` entries.
pub open spec fn count_false(s: Seq<bool>) -> nat
    decreases s.len(),
{
    if s.len() == 0 {
        0
    } else {
        count_false(s.drop_last()) + if s.last() {
            0nat
        } else {
            1nat
        }
    }
}

/// Setting a `false` entry to `true` lowers the count by one.
pub proof fn lemma_count_false_set(s: Seq<bool>, i: int)
    requires
        0 <= i < s.len(),
        !s[i],
    ensures
        count_false(s.update(i, true)) + 1 == count_false(s),
    decreases s.len(),
{
    let u = s.update(i, true);
    if i == s.len() - 1 {
        assert(u.drop_last() =~= s.drop_last());
    } else {
        lemma_count_false_set(s.drop_last(), i);
        assert(u.drop_last() =~= s.drop_last().update(i, true));
    }
}

/// The set of the elements of a sequence.
pub open spec fn elems<T>(s: Seq<T>) -> Set<T> {
    Set::new(|x: T| s.contains(x))
}

} // verus!
