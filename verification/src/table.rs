//! Keyed tables as mathematical maps.

use vstd::prelude::*;

verus! {

/// The map that a list of keyed rows stands for. Where a key occurs more
/// than once, the last row with it counts.
pub open spec fn table_map<K, R>(entries: Seq<(K, R)>) -> Map<K, R>
    decreases entries.len(),
{
    if entries.len() == 0 {
        Map::empty()
    } else {
        table_map(entries.drop_last()).insert(entries.last().0, entries.last().1)
    }
}

/// No key occurs twice in the list.
pub open spec fn distinct_keys<K, R>(entries: Seq<(K, R)>) -> bool {
    forall|i: int, j: int| 0 <= i < j < entries.len() ==> entries[i].0 != entries[j].0
}

/// A key is in the table exactly if some row has it.
pub proof fn lemma_table_dom<K, R>(entries: Seq<(K, R)>, key: K)
    ensures
        table_map(entries).dom().contains(key) <==> exists|i: int|
            0 <= i < entries.len() && entries[i].0 == key,
    decreases entries.len(),
{
    if entries.len() > 0 {
        let front = entries.drop_last();
        lemma_table_dom(front, key);
        if table_map(entries).dom().contains(key) {
            if entries.last().0 == key {
                assert(entries[entries.len() - 1].0 == key);
            } else {
                let i = choose|i: int| 0 <= i < front.len() && front[i].0 == key;
                assert(entries[i].0 == key);
            }
        }
        if exists|i: int| 0 <= i < entries.len() && entries[i].0 == key {
            let i = choose|i: int| 0 <= i < entries.len() && entries[i].0 == key;
            if i < front.len() {
                assert(front[i].0 == key);
            }
        }
    }
}

/// Where no key occurs twice, the table maps each row's key to that row.
pub proof fn lemma_table_get<K, R>(entries: Seq<(K, R)>, i: int)
    requires
        distinct_keys(entries),
        0 <= i < entries.len(),
    ensures
        table_map(entries).dom().contains(entries[i].0),
        table_map(entries)[entries[i].0] == entries[i].1,
    decreases entries.len(),
{
    let front = entries.drop_last();
    if i < entries.len() - 1 {
        assert(distinct_keys(front)) by {
            assert forall|a: int, b: int| 0 <= a < b < front.len() implies front[a].0
                != front[b].0 by {
                assert(front[a] == entries[a] && front[b] == entries[b]);
            }
        }
        lemma_table_get(front, i);
        assert(front[i] == entries[i]);
        assert(entries[i].0 != entries[entries.len() - 1].0);
    }
}

/// Adding a row at the end inserts it into the table.
pub proof fn lemma_table_push<K, R>(entries: Seq<(K, R)>, key: K, row: R)
    ensures
        table_map(entries.push((key, row))) == table_map(entries).insert(key, row),
{
    assert(entries.push((key, row)).drop_last() =~= entries);
}

/// Where no key occurs twice, replacing a row by one with the same key
/// replaces the table's value at that key and leaves the rest as it was.
pub proof fn lemma_table_update<K, R>(entries: Seq<(K, R)>, i: int, row: R)
    requires
        distinct_keys(entries),
        0 <= i < entries.len(),
    ensures
        table_map(entries.update(i, (entries[i].0, row))) == table_map(entries).insert(
            entries[i].0,
            row,
        ),
        distinct_keys(entries.update(i, (entries[i].0, row))),
    decreases entries.len(),
{
    let key = entries[i].0;
    let updated = entries.update(i, (key, row));
    let front = entries.drop_last();
    if i == entries.len() - 1 {
        assert(updated.drop_last() =~= front);
        assert(table_map(updated) =~= table_map(entries).insert(key, row));
    } else {
        assert(distinct_keys(front)) by {
            assert forall|a: int, b: int| 0 <= a < b < front.len() implies front[a].0
                != front[b].0 by {
                assert(front[a] == entries[a] && front[b] == entries[b]);
            }
        }
        lemma_table_update(front, i, row);
        assert(front[i] == entries[i]);
        assert(updated.drop_last() =~= front.update(i, (key, row)));
        assert(updated.last() == entries.last());
        assert(entries[i].0 != entries[entries.len() - 1].0);
        assert(table_map(updated) =~= table_map(entries).insert(key, row));
    }
    assert forall|a: int, b: int| 0 <= a < b < updated.len() implies updated[a].0
        != updated[b].0 by {
        assert(updated[a].0 == entries[a].0 && updated[b].0 == entries[b].0);
    }
}

/// Adding a row whose key is new keeps the keys distinct.
pub proof fn lemma_distinct_push<K, R>(entries: Seq<(K, R)>, key: K, row: R)
    requires
        distinct_keys(entries),
        forall|i: int| 0 <= i < entries.len() ==> entries[i].0 != key,
    ensures
        distinct_keys(entries.push((key, row))),
{
    let all = entries.push((key, row));
    assert forall|a: int, b: int| 0 <= a < b < all.len() implies all[a].0 != all[b].0 by {
        if b < entries.len() {
            assert(all[a] == entries[a] && all[b] == entries[b]);
        } else {
            assert(all[a] == entries[a]);
        }
    }
}

} // verus!
