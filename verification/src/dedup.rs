//! Deduplication, first occurrence wins: of a list of keys the first
//! occurrence of each key is kept, in the order of the list.
use std::collections::HashSet;
use vstd::prelude::*;

verus! {

broadcast use vstd::std_specs::hash::group_hash_axioms;

/// The positions at which a key occurs for the first time, in increasing
/// order.
pub open spec fn first_indices<K>(keys: Seq<K>) -> Seq<int>
    decreases keys.len(),
{
    if keys.len() == 0 {
        Seq::empty()
    } else {
        let before = first_indices(keys.drop_last());
        if keys.drop_last().contains(keys.last()) {
            before
        } else {
            before.push(keys.len() - 1)
        }
    }
}

/// The keys without repetitions, each at the place of its first occurrence.
pub open spec fn distinct<K>(keys: Seq<K>) -> Seq<K> {
    first_indices(keys).map_values(|i: int| keys[i])
}

/// The positions are positions of the list, and they increase strictly: the
/// order of the list is kept.
pub proof fn lemma_first_indices_increase<K>(keys: Seq<K>)
    ensures
        first_indices(keys).len() <= keys.len(),
        forall|k: int|
            0 <= k < first_indices(keys).len() ==> 0 <= #[trigger] first_indices(keys)[k]
                < keys.len(),
        forall|k1: int, k2: int|
            0 <= k1 < k2 < first_indices(keys).len() ==> first_indices(keys)[k1]
                < first_indices(keys)[k2],
    decreases keys.len(),
{
    if keys.len() > 0 {
        lemma_first_indices_increase(keys.drop_last());
    }
}

/// No earlier position holds the key of a kept position: what is kept is a
/// first occurrence.
pub proof fn lemma_first_indices_are_first<K>(keys: Seq<K>)
    ensures
        forall|k: int, j: int|
            #![trigger first_indices(keys)[k], keys[j]]
            0 <= k < first_indices(keys).len() && 0 <= j < first_indices(keys)[k] ==> keys[j]
                != keys[first_indices(keys)[k]],
    decreases keys.len(),
{
    lemma_first_indices_increase(keys);
    if keys.len() > 0 {
        let rest = keys.drop_last();
        lemma_first_indices_are_first(rest);
        lemma_first_indices_increase(rest);
        let fi = first_indices(keys);
        assert forall|k: int, j: int|
            #![trigger fi[k], keys[j]]
            0 <= k < fi.len() && 0 <= j < fi[k] implies keys[j] != keys[fi[k]] by {
            if k < first_indices(rest).len() {
                assert(fi[k] == first_indices(rest)[k]);
                assert(rest[j] == keys[j]);
                assert(rest[fi[k]] == keys[fi[k]]);
            } else {
                assert(fi[k] == keys.len() - 1);
                assert(!rest.contains(keys.last()));
                assert(rest[j] == keys[j]);
            }
        }
    }
}

/// Every key of the list is kept once: the kept position that holds it is
/// not after any of its occurrences.
pub proof fn lemma_first_indices_cover<K>(keys: Seq<K>, i: int)
    requires
        0 <= i < keys.len(),
    ensures
        exists|k: int|
            0 <= k < first_indices(keys).len() && 0 <= #[trigger] first_indices(keys)[k] <= i
                && keys[first_indices(keys)[k]] == keys[i],
    decreases keys.len(),
{
    let rest = keys.drop_last();
    lemma_first_indices_increase(rest);
    let fi = first_indices(keys);
    if i < keys.len() - 1 {
        lemma_first_indices_cover(rest, i);
        let k = choose|k: int|
            0 <= k < first_indices(rest).len() && 0 <= #[trigger] first_indices(rest)[k] <= i
                && rest[first_indices(rest)[k]] == rest[i];
        assert(fi[k] == first_indices(rest)[k]);
        assert(rest[fi[k]] == keys[fi[k]]);
        assert(rest[i] == keys[i]);
    } else if rest.contains(keys.last()) {
        let j = choose|j: int| 0 <= j < rest.len() && rest[j] == keys.last();
        lemma_first_indices_cover(rest, j);
        let k = choose|k: int|
            0 <= k < first_indices(rest).len() && 0 <= #[trigger] first_indices(rest)[k] <= j
                && rest[first_indices(rest)[k]] == rest[j];
        assert(fi[k] == first_indices(rest)[k]);
        assert(rest[fi[k]] == keys[fi[k]]);
    } else {
        let k = fi.len() - 1;
        assert(fi[k] == i);
    }
}

/// No key is kept twice.
pub proof fn lemma_distinct_no_duplicates<K>(keys: Seq<K>)
    ensures
        distinct(keys).no_duplicates(),
        distinct(keys).len() == first_indices(keys).len(),
{
    lemma_first_indices_increase(keys);
    lemma_first_indices_are_first(keys);
    let fi = first_indices(keys);
    assert forall|k1: int, k2: int|
        0 <= k1 < distinct(keys).len() && 0 <= k2 < distinct(keys).len() && k1 != k2 implies distinct(
        keys,
    )[k1] != distinct(keys)[k2] by {
        if k1 < k2 {
            assert(fi[k1] < fi[k2]);
            assert(keys[fi[k1]] != keys[fi[k2]]);
        } else {
            assert(fi[k2] < fi[k1]);
            assert(keys[fi[k2]] != keys[fi[k1]]);
        }
    }
}

/// A key is among the distinct keys exactly when it is in the list.
pub proof fn lemma_distinct_contains<K>(keys: Seq<K>, key: K)
    ensures
        distinct(keys).contains(key) <==> keys.contains(key),
{
    lemma_first_indices_increase(keys);
    let fi = first_indices(keys);
    if keys.contains(key) {
        let i = choose|i: int| 0 <= i < keys.len() && keys[i] == key;
        lemma_first_indices_cover(keys, i);
        let k = choose|k: int|
            0 <= k < fi.len() && 0 <= #[trigger] fi[k] <= i && keys[fi[k]] == keys[i];
        assert(distinct(keys)[k] == key);
    }
    if distinct(keys).contains(key) {
        let k = choose|k: int| 0 <= k < distinct(keys).len() && distinct(keys)[k] == key;
        assert(keys[fi[k]] == key);
    }
}

/// One more key at the end is kept exactly when the list does not hold it
/// yet; what was kept before stays as it was.
pub proof fn lemma_distinct_push<K>(keys: Seq<K>, key: K)
    ensures
        distinct(keys.push(key)) == if keys.contains(key) {
            distinct(keys)
        } else {
            distinct(keys).push(key)
        },
{
    let longer = keys.push(key);
    assert(longer.drop_last() =~= keys);
    assert(longer.last() == key);
    lemma_first_indices_increase(keys);
    let fi = first_indices(keys);
    assert forall|k: int| 0 <= k < fi.len() implies longer[#[trigger] fi[k]] == keys[fi[k]] by {}
    if keys.contains(key) {
        assert(distinct(longer) =~= distinct(keys));
    } else {
        assert(distinct(longer) =~= distinct(keys).push(key));
    }
}

/// The views of a list of positions.
pub open spec fn positions(kept: Seq<usize>) -> Seq<int> {
    kept.map_values(|i: usize| i as int)
}

/// The positions of the first occurrences of the codes, in order.
pub fn first_occurrences(codes: &Vec<i32>) -> (kept: Vec<usize>)
    ensures
        positions(kept@) == first_indices(codes@),
{
    let mut seen: HashSet<i32> = HashSet::new();
    let mut kept: Vec<usize> = Vec::new();
    let mut i: usize = 0;
    assert(codes@.take(0) =~= Seq::<i32>::empty());
    assert(positions(kept@) =~= first_indices(codes@.take(0)));
    while i < codes.len()
        invariant
            i <= codes.len(),
            positions(kept@) =~= first_indices(codes@.take(i as int)),
            forall|c: i32| seen@.contains(c) <==> codes@.take(i as int).contains(c),
        decreases codes.len() - i,
    {
        let code = codes[i];
        let ghost prefix = codes@.take(i as int);
        let ghost next = codes@.take(i + 1);
        proof {
            assert(next.drop_last() =~= prefix);
            assert(next.last() == code);
        }
        if !seen.contains(&code) {
            seen.insert(code);
            kept.push(i);
            assert(positions(kept@) =~= first_indices(prefix).push(i as int));
        }
        proof {
            assert forall|c: i32| seen@.contains(c) <==> next.contains(c) by {
                if next.contains(c) {
                    let j = choose|j: int| 0 <= j < next.len() && next[j] == c;
                    if j < i {
                        assert(prefix[j] == c);
                    }
                }
                if prefix.contains(c) {
                    let j = choose|j: int| 0 <= j < prefix.len() && prefix[j] == c;
                    assert(next[j] == c);
                }
                assert(next[i as int] == code);
            }
        }
        i += 1;
    }
    assert(codes@.take(i as int) =~= codes@);
    kept
}

/// The views of a list of strings.
pub open spec fn key_texts(keys: Seq<String>) -> Seq<Seq<char>> {
    keys.map_values(|s: String| s@)
}

/// The position of `key` in a list of keys, if it is there.
pub fn position_of(keys: &Vec<String>, key: &String) -> (r: Option<usize>)
    ensures
        match r {
            Some(k) => k < keys.len() && keys[k as int]@ == key@ && forall|j: int|
                0 <= j < k ==> keys[j]@ != key@,
            None => !key_texts(keys@).contains(key@),
        },
{
    let mut k: usize = 0;
    while k < keys.len()
        invariant
            k <= keys.len(),
            forall|j: int| 0 <= j < k ==> keys[j]@ != key@,
        decreases keys.len() - k,
    {
        if keys[k] == *key {
            return Some(k);
        }
        k += 1;
    }
    assert forall|j: int| 0 <= j < key_texts(keys@).len() implies key_texts(keys@)[j] != key@ by {
        assert(key_texts(keys@)[j] == keys[j]@);
    }
    None
}

} // verus!
