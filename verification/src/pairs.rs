//! Lists of key and value pairs, read as mappings. Where a key occurs more
//! than once, the first pair under it counts.

use vstd::prelude::*;

verus! {

/// The index of the first occurrence of `key` in `keys`, or the length of
/// `keys` where there is none.
pub open spec fn first_index(keys: Seq<Seq<char>>, key: Seq<char>) -> int
    decreases keys.len(),
{
    if keys.len() == 0 {
        0
    } else if keys[0] == key {
        0
    } else {
        1 + first_index(keys.drop_first(), key)
    }
}

/// The keys of a list of pairs, in order.
pub open spec fn keys_of(pairs: Seq<(Seq<char>, Seq<char>)>) -> Seq<Seq<char>> {
    pairs.map_values(|p: (Seq<char>, Seq<char>)| p.0)
}

/// The mapping that a list of pairs stands for.
pub open spec fn pairs_map(pairs: Seq<(Seq<char>, Seq<char>)>) -> Map<Seq<char>, Seq<char>> {
    Map::new(
        |key: Seq<char>| first_index(keys_of(pairs), key) < pairs.len(),
        |key: Seq<char>| pairs[first_index(keys_of(pairs), key)].1,
    )
}

/// `pairs` after `key` was given `value`: the first pair under `key` is
/// replaced where it stands, or a new pair is added at the end.
pub open spec fn put(pairs: Seq<(Seq<char>, Seq<char>)>, key: Seq<char>, value: Seq<char>) -> Seq<
    (Seq<char>, Seq<char>),
> {
    let i = first_index(keys_of(pairs), key);
    if i < pairs.len() {
        pairs.update(i, (key, value))
    } else {
        pairs.push((key, value))
    }
}

/// `first_index` is the least index that holds `key`.
pub proof fn lemma_first_index(keys: Seq<Seq<char>>, key: Seq<char>)
    ensures
        0 <= first_index(keys, key) <= keys.len(),
        first_index(keys, key) < keys.len() ==> keys[first_index(keys, key)] == key,
        forall|i: int| 0 <= i < first_index(keys, key) ==> keys[i] != key,
        first_index(keys, key) < keys.len() <==> keys.contains(key),
    decreases keys.len(),
{
    if keys.len() > 0 && keys[0] != key {
        let rest = keys.drop_first();
        lemma_first_index(rest, key);
        assert forall|i: int| 0 <= i < first_index(keys, key) implies keys[i] != key by {
            if i > 0 {
                assert(keys[i] == rest[i - 1]);
            }
        }
        if keys.contains(key) {
            let i = choose|i: int| 0 <= i < keys.len() && keys[i] == key;
            assert(rest[i - 1] == key);
        }
        if rest.contains(key) {
            let i = choose|i: int| 0 <= i < rest.len() && rest[i] == key;
            assert(keys[i + 1] == key);
        }
    } else if keys.len() > 0 {
        assert(keys[0] == key);
    }
}

/// The first occurrence of a key after one more key was added at the end.
pub proof fn lemma_first_index_push(keys: Seq<Seq<char>>, added: Seq<char>, key: Seq<char>)
    ensures
        first_index(keys.push(added), key) == if first_index(keys, key) < keys.len() {
            first_index(keys, key)
        } else if added == key {
            keys.len() as int
        } else {
            keys.len() as int + 1
        },
    decreases keys.len(),
{
    let more = keys.push(added);
    if keys.len() == 0 {
        assert(more.drop_first() =~= keys);
    } else if keys[0] != key {
        assert(more.drop_first() =~= keys.drop_first().push(added));
        lemma_first_index_push(keys.drop_first(), added, key);
    }
}

/// Putting a pair maps its key to its value and leaves every other key as it
/// was. The keys stay as they are where the key was there, and get the key
/// at their end where it was not.
pub proof fn lemma_put(pairs: Seq<(Seq<char>, Seq<char>)>, key: Seq<char>, value: Seq<char>)
    ensures
        pairs_map(put(pairs, key, value)) == pairs_map(pairs).insert(key, value),
        keys_of(put(pairs, key, value)) == if keys_of(pairs).contains(key) {
            keys_of(pairs)
        } else {
            keys_of(pairs).push(key)
        },
        keys_of(pairs).no_duplicates() ==> keys_of(put(pairs, key, value)).no_duplicates(),
{
    let keys = keys_of(pairs);
    let after = put(pairs, key, value);
    let i = first_index(keys, key);
    lemma_first_index(keys, key);
    if i < pairs.len() {
        assert(keys_of(after) =~= keys);
        let want = pairs_map(pairs).insert(key, value);
        assert forall|k: Seq<char>| #[trigger]
            pairs_map(after).contains_key(k) == want.contains_key(k) && (want.contains_key(k)
                ==> pairs_map(after)[k] == want[k]) by {
            lemma_first_index(keys, k);
        }
        assert(pairs_map(after) =~= want);
    } else {
        assert(keys_of(after) =~= keys.push(key));
        assert forall|k: Seq<char>|
            first_index(keys_of(after), k) == if first_index(keys, k) < keys.len() {
                first_index(keys, k)
            } else if key == k {
                keys.len() as int
            } else {
                keys.len() as int + 1
            } by {
            lemma_first_index_push(keys, key, k);
        }
        let want = pairs_map(pairs).insert(key, value);
        assert forall|k: Seq<char>| #[trigger]
            pairs_map(after).contains_key(k) == want.contains_key(k) && (want.contains_key(k)
                ==> pairs_map(after)[k] == want[k]) by {
            lemma_first_index(keys, k);
            lemma_first_index_push(keys, key, k);
        }
        assert(pairs_map(after) =~= want);
        if keys.no_duplicates() {
            assert forall|a: int, b: int|
                0 <= a < keys_of(after).len() && 0 <= b < keys_of(after).len() && a
                    != b implies keys_of(after)[a] != keys_of(after)[b] by {
                if a < keys.len() {
                    assert(keys[a] != key);
                }
                if b < keys.len() {
                    assert(keys[b] != key);
                }
            }
        }
    }
}

/// What a list of pairs with distinct keys maps each of its keys to.
pub proof fn lemma_pairs_map_distinct(pairs: Seq<(Seq<char>, Seq<char>)>, i: int)
    requires
        keys_of(pairs).no_duplicates(),
        0 <= i < pairs.len(),
    ensures
        pairs_map(pairs).contains_key(pairs[i].0),
        pairs_map(pairs)[pairs[i].0] == pairs[i].1,
        first_index(keys_of(pairs), pairs[i].0) == i,
{
    let keys = keys_of(pairs);
    lemma_first_index(keys, pairs[i].0);
    assert(keys[i] == pairs[i].0);
    let j = first_index(keys, pairs[i].0);
    if j != i {
        assert(keys[j] == keys[i]);
    }
}

/// A list of pairs maps exactly its keys.
pub proof fn lemma_pairs_map_dom(pairs: Seq<(Seq<char>, Seq<char>)>)
    ensures
        forall|key: Seq<char>| #[trigger]
            pairs_map(pairs).contains_key(key) <==> keys_of(pairs).contains(key),
{
    assert forall|key: Seq<char>| #[trigger]
        pairs_map(pairs).contains_key(key) <==> keys_of(pairs).contains(key) by {
        lemma_first_index(keys_of(pairs), key);
    }
}

/// `pairs` without the pairs whose key occurred before.
pub open spec fn first_pairs(pairs: Seq<(Seq<char>, Seq<char>)>) -> Seq<(Seq<char>, Seq<char>)>
    decreases pairs.len(),
{
    if pairs.len() == 0 {
        pairs
    } else {
        let before = first_pairs(pairs.drop_last());
        if keys_of(before).contains(pairs.last().0) {
            before
        } else {
            before.push(pairs.last())
        }
    }
}

/// `pairs` with every pair of `more` put into it, in order.
pub open spec fn put_all(
    pairs: Seq<(Seq<char>, Seq<char>)>,
    more: Seq<(Seq<char>, Seq<char>)>,
) -> Seq<(Seq<char>, Seq<char>)>
    decreases more.len(),
{
    if more.len() == 0 {
        pairs
    } else {
        put(put_all(pairs, more.drop_last()), more.last().0, more.last().1)
    }
}

/// One more pair at the end counts only if its key is new.
pub proof fn lemma_pairs_map_push(pairs: Seq<(Seq<char>, Seq<char>)>, pair: (Seq<char>, Seq<char>))
    ensures
        pairs_map(pairs.push(pair)) == if pairs_map(pairs).contains_key(pair.0) {
            pairs_map(pairs)
        } else {
            pairs_map(pairs).insert(pair.0, pair.1)
        },
{
    let keys = keys_of(pairs);
    let more = pairs.push(pair);
    assert(keys_of(more) =~= keys.push(pair.0));
    let want = if pairs_map(pairs).contains_key(pair.0) {
        pairs_map(pairs)
    } else {
        pairs_map(pairs).insert(pair.0, pair.1)
    };
    assert forall|k: Seq<char>| #[trigger]
        pairs_map(more).contains_key(k) == want.contains_key(k) && (want.contains_key(k)
            ==> pairs_map(more)[k] == want[k]) by {
        lemma_first_index(keys, k);
        lemma_first_index_push(keys, pair.0, k);
    }
    assert(pairs_map(more) =~= want);
}

/// Dropping the pairs whose key occurred before leaves distinct keys and
/// the same mapping.
pub proof fn lemma_first_pairs(pairs: Seq<(Seq<char>, Seq<char>)>)
    ensures
        keys_of(first_pairs(pairs)).no_duplicates(),
        pairs_map(first_pairs(pairs)) == pairs_map(pairs),
    decreases pairs.len(),
{
    if pairs.len() > 0 {
        let front = pairs.drop_last();
        let before = first_pairs(front);
        lemma_first_pairs(front);
        lemma_pairs_map_dom(before);
        lemma_pairs_map_dom(front);
        assert(pairs == front.push(pairs.last()));
        lemma_pairs_map_push(front, pairs.last());
        lemma_pairs_map_push(before, pairs.last());
        if !keys_of(before).contains(pairs.last().0) {
            assert(keys_of(before.push(pairs.last())) =~= keys_of(before).push(pairs.last().0));
        }
    }
}

/// Putting pairs one after the other keeps distinct keys distinct, and
/// gives the mapping in which the pairs that were put override the others.
pub proof fn lemma_put_all(pairs: Seq<(Seq<char>, Seq<char>)>, more: Seq<(Seq<char>, Seq<char>)>)
    requires
        keys_of(pairs).no_duplicates(),
        keys_of(more).no_duplicates(),
    ensures
        keys_of(put_all(pairs, more)).no_duplicates(),
        pairs_map(put_all(pairs, more)) == pairs_map(pairs).union_prefer_right(pairs_map(more)),
    decreases more.len(),
{
    if more.len() == 0 {
        assert(pairs_map(more) =~= Map::<Seq<char>, Seq<char>>::empty());
        assert(pairs_map(pairs).union_prefer_right(pairs_map(more)) =~= pairs_map(pairs));
    } else {
        let front = more.drop_last();
        let last = more.last();
        assert(keys_of(front) =~= keys_of(more).drop_last());
        lemma_put_all(pairs, front);
        lemma_put(put_all(pairs, front), last.0, last.1);
        assert(more == front.push(last));
        lemma_pairs_map_push(front, last);
        lemma_pairs_map_dom(front);
        if keys_of(front).contains(last.0) {
            let i = choose|i: int| 0 <= i < front.len() && keys_of(front)[i] == last.0;
            assert(keys_of(more)[i] == keys_of(more)[more.len() - 1]);
        }
        assert(pairs_map(put_all(pairs, more)) =~= pairs_map(pairs).union_prefer_right(
            pairs_map(more),
        ));
    }
}

/// Putting pairs with distinct keys into the empty list gives them back.
pub proof fn lemma_put_all_onto_empty(more: Seq<(Seq<char>, Seq<char>)>)
    requires
        keys_of(more).no_duplicates(),
    ensures
        put_all(Seq::empty(), more) == more,
    decreases more.len(),
{
    if more.len() > 0 {
        let front = more.drop_last();
        let last = more.last();
        assert(keys_of(front) =~= keys_of(more).drop_last());
        lemma_put_all_onto_empty(front);
        lemma_first_index(keys_of(front), last.0);
        if keys_of(front).contains(last.0) {
            let i = choose|i: int| 0 <= i < front.len() && keys_of(front)[i] == last.0;
            assert(keys_of(more)[i] == keys_of(more)[more.len() - 1]);
        }
        assert(front.push(last) =~= more);
    }
}

/// Taking a pair out of a list with distinct keys takes its key out of the
/// mapping and leaves every other key as it was.
pub proof fn lemma_remove(pairs: Seq<(Seq<char>, Seq<char>)>, i: int)
    requires
        keys_of(pairs).no_duplicates(),
        0 <= i < pairs.len(),
    ensures
        keys_of(pairs.remove(i)).no_duplicates(),
        pairs_map(pairs.remove(i)) == pairs_map(pairs).remove(pairs[i].0),
{
    let rest = pairs.remove(i);
    assert forall|a: int, b: int|
        0 <= a < rest.len() && 0 <= b < rest.len() && a != b implies keys_of(rest)[a] != keys_of(
        rest,
    )[b] by {
        let x = if a < i { a } else { a + 1 };
        let y = if b < i { b } else { b + 1 };
        assert(keys_of(rest)[a] == keys_of(pairs)[x]);
        assert(keys_of(rest)[b] == keys_of(pairs)[y]);
    }
    let want = pairs_map(pairs).remove(pairs[i].0);
    lemma_pairs_map_dom(pairs);
    lemma_pairs_map_dom(rest);
    assert forall|k: Seq<char>| #[trigger]
        pairs_map(rest).contains_key(k) == want.contains_key(k) && (want.contains_key(k)
            ==> pairs_map(rest)[k] == want[k]) by {
        if keys_of(rest).contains(k) {
            let a = choose|a: int| 0 <= a < rest.len() && keys_of(rest)[a] == k;
            let x = if a < i { a } else { a + 1 };
            assert(keys_of(pairs)[x] == k);
            assert(keys_of(pairs)[i] == pairs[i].0);
            lemma_pairs_map_distinct(rest, a);
            lemma_pairs_map_distinct(pairs, x);
        }
        if keys_of(pairs).contains(k) && k != pairs[i].0 {
            let x = choose|x: int| 0 <= x < pairs.len() && keys_of(pairs)[x] == k;
            let a = if x < i { x } else { x - 1 };
            assert(keys_of(rest)[a] == k);
        }
    }
    assert(pairs_map(rest) =~= want);
}

} // verus!
