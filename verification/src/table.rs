//! Keyed tables: a sequence of distinct keys with a value for each, read as
//! a map.

use vstd::prelude::*;

verus! {

/// No key occurs twice.
pub open spec fn distinct(keys: Seq<Seq<char>>) -> bool {
    forall|i: int, j: int| 0 <= i < j < keys.len() ==> keys[i] != keys[j]
}

/// `key` is one of the keys.
pub open spec fn holds_key(keys: Seq<Seq<char>>, key: Seq<char>) -> bool {
    exists|i: int| 0 <= i < keys.len() && (#[trigger] keys[i]) == key
}

/// A position of `key` among the keys.
pub open spec fn slot(keys: Seq<Seq<char>>, key: Seq<char>) -> int {
    choose|i: int| 0 <= i < keys.len() && (#[trigger] keys[i]) == key
}

/// The map that the keys and their values stand for.
pub open spec fn table<V>(keys: Seq<Seq<char>>, values: Seq<V>) -> Map<Seq<char>, V> {
    Map::new(|key: Seq<char>| holds_key(keys, key), |key: Seq<char>| values[slot(keys, key)])
}

/// Among distinct keys each has one position.
pub proof fn lemma_slot(keys: Seq<Seq<char>>, i: int)
    requires
        distinct(keys),
        0 <= i < keys.len(),
    ensures
        holds_key(keys, keys[i]),
        slot(keys, keys[i]) == i,
{
    assert(holds_key(keys, keys[i]));
    let j = slot(keys, keys[i]);
    if j < i {
        assert(keys[j] != keys[i]);
    } else if i < j {
        assert(keys[i] != keys[j]);
    }
}

/// A new value at a position is a new value under the key there.
pub proof fn lemma_table_update<V>(keys: Seq<Seq<char>>, values: Seq<V>, j: int, value: V)
    requires
        distinct(keys),
        keys.len() == values.len(),
        0 <= j < keys.len(),
    ensures
        table(keys, values).contains_key(keys[j]),
        table(keys, values)[keys[j]] == values[j],
        table(keys, values.update(j, value)) == table(keys, values).insert(keys[j], value),
{
    let after = table(keys, values.update(j, value));
    let wanted = table(keys, values).insert(keys[j], value);
    lemma_slot(keys, j);
    assert forall|key: Seq<char>| after.contains_key(key) implies #[trigger] after[key]
        == wanted[key] by {
        let i = slot(keys, key);
        lemma_slot(keys, i);
    }
    assert(after =~= wanted);
}

/// A key that was free, pushed with its value, is that value put under the
/// key.
pub proof fn lemma_table_push<V>(keys: Seq<Seq<char>>, values: Seq<V>, key: Seq<char>, value: V)
    requires
        distinct(keys),
        keys.len() == values.len(),
        !holds_key(keys, key),
    ensures
        distinct(keys.push(key)),
        !table(keys, values).contains_key(key),
        table(keys.push(key), values.push(value)) == table(keys, values).insert(key, value),
{
    let keys2 = keys.push(key);
    let values2 = values.push(value);
    assert forall|i: int, j: int| 0 <= i < j < keys2.len() implies keys2[i] != keys2[j] by {
        if j == keys.len() {
            assert(keys[i] == keys2[i]);
        } else {
            assert(keys[i] != keys[j]);
        }
    }
    let after = table(keys2, values2);
    let wanted = table(keys, values).insert(key, value);
    assert forall|k: Seq<char>| after.contains_key(k) <==> wanted.contains_key(k) by {
        if holds_key(keys2, k) {
            let i = slot(keys2, k);
            if i < keys.len() {
                assert(keys[i] == k);
            }
        }
        if holds_key(keys, k) {
            let i = slot(keys, k);
            assert(keys2[i] == k);
        }
        assert(keys2[keys.len() as int] == key);
    }
    assert forall|k: Seq<char>| after.contains_key(k) implies #[trigger] after[k] == wanted[k] by {
        let i = slot(keys2, k);
        lemma_slot(keys2, i);
        if i < keys.len() {
            assert(keys[i] == k);
            lemma_slot(keys, i);
        }
    }
    assert(after =~= wanted);
}

/// A table of distinct keys holds as many entries as there are keys.
pub proof fn lemma_table_len<V>(keys: Seq<Seq<char>>, values: Seq<V>)
    requires
        distinct(keys),
        keys.len() == values.len(),
    ensures
        table(keys, values).dom().finite(),
        table(keys, values).len() == keys.len(),
    decreases keys.len(),
{
    if keys.len() == 0 {
        assert(table(keys, values) =~= Map::<Seq<char>, V>::empty());
    } else {
        let head = keys.drop_last();
        let rest = values.drop_last();
        assert(distinct(head)) by {
            assert forall|i: int, j: int| 0 <= i < j < head.len() implies head[i] != head[j] by {
                assert(keys[i] != keys[j]);
            }
        }
        assert(!holds_key(head, keys.last())) by {
            if holds_key(head, keys.last()) {
                let i = slot(head, keys.last());
                assert(keys[i] != keys[keys.len() - 1]);
            }
        }
        lemma_table_len(head, rest);
        lemma_table_push(head, rest, keys.last(), values.last());
        assert(head.push(keys.last()) =~= keys);
        assert(rest.push(values.last()) =~= values);
    }
}

} // verus!
