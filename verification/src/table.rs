//! Keys and values kept side by side in two sequences, read as a map.

use vstd::prelude::*;

verus! {

/// The map that takes each of `keys` to the value that stands beside it.
pub open spec fn table_of<K, V>(keys: Seq<K>, values: Seq<V>) -> Map<K, V> {
    Map::new(|key: K| keys.contains(key), |key: K| values[keys.index_of(key)])
}

/// In a table of distinct keys, the key at `index` leads to the value at
/// `index`.
pub proof fn lemma_table_at<K, V>(keys: Seq<K>, values: Seq<V>, index: int)
    requires
        keys.no_duplicates(),
        0 <= index < keys.len(),
    ensures
        keys.contains(keys[index]),
        keys.index_of(keys[index]) == index,
        table_of(keys, values).contains_key(keys[index]),
        table_of(keys, values)[keys[index]] == values[index],
{
    assert(keys.contains(keys[index]));
}

/// A new value in the place of an old one is a new value under its key.
pub proof fn lemma_table_update<K, V>(keys: Seq<K>, values: Seq<V>, index: int, value: V)
    requires
        keys.no_duplicates(),
        keys.len() == values.len(),
        0 <= index < keys.len(),
    ensures
        table_of(keys, values.update(index, value)) == table_of(keys, values).insert(
            keys[index],
            value,
        ),
{
    let after = table_of(keys, values.update(index, value));
    let expected = table_of(keys, values).insert(keys[index], value);
    assert(keys.contains(keys[index]));
    assert forall|key: K| after.contains_key(key) implies #[trigger] after[key] == expected[key] by {
        if key != keys[index] {
            assert(keys.index_of(key) != index);
        }
    }
    assert(after == expected);
}

/// A key that the table lacks, added at the end with a value, is a new
/// entry; the keys stay distinct.
pub proof fn lemma_table_push<K, V>(keys: Seq<K>, values: Seq<V>, key: K, value: V)
    requires
        keys.no_duplicates(),
        keys.len() == values.len(),
        !keys.contains(key),
    ensures
        keys.push(key).no_duplicates(),
        table_of(keys.push(key), values.push(value)) == table_of(keys, values).insert(key, value),
{
    let more = keys.push(key);
    let after = table_of(more, values.push(value));
    let expected = table_of(keys, values).insert(key, value);
    assert forall|i: int, j: int| 0 <= i < more.len() && 0 <= j < more.len() && i != j implies more[i]
        != more[j] by {
        if i < keys.len() {
            assert(keys.contains(keys[i]));
        }
        if j < keys.len() {
            assert(keys.contains(keys[j]));
        }
    }
    assert(more[keys.len() as int] == key);
    assert forall|other: K| #[trigger] more.contains(other) <==> (keys.contains(other) || other == key) by {
        if keys.contains(other) {
            assert(more[keys.index_of(other)] == other);
        }
        if more.contains(other) && other != key {
            assert(keys[more.index_of(other)] == other);
        }
    }
    assert forall|other: K| after.contains_key(other) implies #[trigger] after[other] == expected[other] by {
        let k = more.index_of(other);
        if other != key {
            assert(keys[k] == other);
            assert(keys.index_of(other) == k);
        } else {
            assert(k == keys.len());
        }
    }
    assert(after == expected);
}

/// Taking the entry at `index` out of both sequences removes its key from
/// the table; the keys stay distinct.
pub proof fn lemma_table_remove<K, V>(keys: Seq<K>, values: Seq<V>, index: int)
    requires
        keys.no_duplicates(),
        keys.len() == values.len(),
        0 <= index < keys.len(),
    ensures
        keys.remove(index).no_duplicates(),
        table_of(keys.remove(index), values.remove(index)) == table_of(keys, values).remove(
            keys[index],
        ),
{
    let fewer = keys.remove(index);
    let after = table_of(fewer, values.remove(index));
    let expected = table_of(keys, values).remove(keys[index]);
    assert forall|i: int, j: int| 0 <= i < fewer.len() && 0 <= j < fewer.len() && i != j implies fewer[i]
        != fewer[j] by {
        let a = if i < index { i } else { i + 1 };
        let b = if j < index { j } else { j + 1 };
        assert(keys[a] != keys[b]);
    }
    assert forall|other: K| #[trigger]
        fewer.contains(other) <==> (keys.contains(other) && other != keys[index]) by {
        if fewer.contains(other) {
            let k = fewer.index_of(other);
            let a = if k < index { k } else { k + 1 };
            assert(keys[a] == other);
        }
        if keys.contains(other) && other != keys[index] {
            let a = keys.index_of(other);
            let k = if a < index { a } else { a - 1 };
            assert(fewer[k] == other);
        }
    }
    assert forall|other: K| after.contains_key(other) implies #[trigger] after[other] == expected[other] by {
        let k = fewer.index_of(other);
        let a = if k < index { k } else { k + 1 };
        assert(keys[a] == other);
        assert(keys.index_of(other) == a);
    }
    assert(after == expected);
}

/// A table of distinct keys has as many entries as keys.
pub proof fn lemma_table_len<K, V>(keys: Seq<K>, values: Seq<V>)
    requires
        keys.no_duplicates(),
    ensures
        table_of(keys, values).dom().finite(),
        table_of(keys, values).dom().len() == keys.len(),
        table_of(keys, values).dom() == keys.to_set(),
{
    keys.unique_seq_to_set();
    assert(table_of(keys, values).dom() == keys.to_set());
}

} // verus!
