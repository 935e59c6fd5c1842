use vstd::prelude::*;

verus! {

/// The map written by a sequence of key-value entries, later entries
/// overwriting earlier ones with the same key (last write wins).
pub open spec fn assoc_map<K, V>(items: Seq<(K, V)>) -> Map<K, V>
    decreases items.len(),
{
    if items.len() == 0 {
        Map::empty()
    } else {
        assoc_map(items.drop_last()).insert(items.last().0, items.last().1)
    }
}

/// Whether no two entries of the sequence share a key.
pub open spec fn unique_keys<K, V>(items: Seq<(K, V)>) -> bool {
    forall|i: int, j: int|
        0 <= i < j < items.len() ==> (#[trigger] items[i]).0 != (#[trigger] items[j]).0
}

/// A key is in the written map exactly when some entry wrote it.
pub proof fn lemma_assoc_map_domain<K, V>(items: Seq<(K, V)>, k: K)
    ensures
        assoc_map(items).contains_key(k) <==> exists|i: int|
            0 <= i < items.len() && (#[trigger] items[i]).0 == k,
    decreases items.len(),
{
    if items.len() > 0 {
        lemma_assoc_map_domain(items.drop_last(), k);
        assert(forall|i: int|
            0 <= i < items.len() - 1 ==> items.drop_last()[i] == #[trigger] items[i]);
        if items.last().0 == k {
            assert(items[items.len() - 1].0 == k);
        }
    }
}

/// The written map sends each key to the value of the last entry that
/// wrote it.
pub proof fn lemma_assoc_map_last_write<K, V>(items: Seq<(K, V)>, i: int)
    requires
        0 <= i < items.len(),
        forall|j: int| i < j < items.len() ==> (#[trigger] items[j]).0 != items[i].0,
    ensures
        assoc_map(items).contains_key(items[i].0),
        assoc_map(items)[items[i].0] == items[i].1,
    decreases items.len(),
{
    if i < items.len() - 1 {
        assert(forall|j: int|
            0 <= j < items.len() - 1 ==> items.drop_last()[j] == #[trigger] items[j]);
        lemma_assoc_map_last_write(items.drop_last(), i);
        assert(items[items.len() - 1].0 != items[i].0);
    }
}

/// Appending a fresh entry writes exactly that key.
pub proof fn lemma_assoc_map_push<K, V>(items: Seq<(K, V)>, e: (K, V))
    ensures
        assoc_map(items.push(e)) == assoc_map(items).insert(e.0, e.1),
{
    assert(items.push(e).drop_last() =~= items);
    assert(items.push(e).last() == e);
}

/// Removing the one entry that holds a key removes exactly that key from
/// the written map.
pub proof fn lemma_assoc_map_remove<K, V>(items: Seq<(K, V)>, i: int)
    requires
        unique_keys(items),
        0 <= i < items.len(),
    ensures
        unique_keys(items.remove(i)),
        assoc_map(items.remove(i)) == assoc_map(items).remove(items[i].0),
    decreases items.len(),
{
    let k = items[i].0;
    assert(forall|j: int| 0 <= j < i ==> items.remove(i)[j] == #[trigger] items[j]);
    assert(forall|j: int|
        i <= j < items.len() - 1 ==> items.remove(i)[j] == #[trigger] items[j + 1]);
    assert(forall|j: int|
        0 <= j < items.len() - 1 ==> (#[trigger] items.remove(i)[j]) == (if j < i {
            items[j]
        } else {
            items[j + 1]
        }));
    if i == items.len() - 1 {
        assert(items.remove(i) =~= items.drop_last());
        lemma_assoc_map_domain(items.drop_last(), k);
        assert(forall|j: int|
            0 <= j < items.len() - 1 ==> items.drop_last()[j] == #[trigger] items[j]);
        assert(!assoc_map(items.drop_last()).contains_key(k));
        assert(assoc_map(items.drop_last()).insert(k, items[i].1).remove(k) =~= assoc_map(
            items.drop_last(),
        ));
    } else {
        let dl = items.drop_last();
        assert(forall|j: int| 0 <= j < items.len() - 1 ==> dl[j] == #[trigger] items[j]);
        lemma_assoc_map_remove(dl, i);
        assert(items.remove(i).drop_last() =~= dl.remove(i));
        assert(items.remove(i).last() == items.last());
        assert(items.last().0 != k);
        assert(assoc_map(dl).remove(k).insert(items.last().0, items.last().1) =~= assoc_map(
            dl,
        ).insert(items.last().0, items.last().1).remove(k));
    }
}

/// Entry order does not matter: two sequences holding the same entries,
/// with no two entries sharing a key, write the same map, whatever their
/// relative order.
pub proof fn lemma_assoc_map_order_irrelevant<K, V>(items1: Seq<(K, V)>, items2: Seq<(K, V)>)
    requires
        unique_keys(items1),
        items1.to_multiset() == items2.to_multiset(),
    ensures
        unique_keys(items2),
        assoc_map(items2) == assoc_map(items1),
{
    broadcast use vstd::seq_lib::group_to_multiset_ensures;
    broadcast use vstd::multiset::group_multiset_axioms;

    items1.to_multiset_ensures();
    items2.to_multiset_ensures();
    assert forall|e: (K, V)| #[trigger] items2.contains(e) implies items1.contains(e) by {
        assert(items2.to_multiset().count(e) > 0);
        assert(items1.to_multiset().count(e) > 0);
    }
    assert forall|e: (K, V)| #[trigger] items1.contains(e) implies items2.contains(e) by {
        assert(items1.to_multiset().count(e) > 0);
        assert(items2.to_multiset().count(e) > 0);
    }
    assert forall|i: int, j: int| 0 <= i < j < items2.len() implies (#[trigger] items2[i]).0 != (
    #[trigger] items2[j]).0 by {
        let e1 = items2[i];
        let e2 = items2[j];
        if e1.0 == e2.0 {
            if e1 == e2 {
                assert(items2.remove(i)[j - 1] == e2);
                assert(items2.remove(i).contains(e1));
                assert(items2.remove(i).to_multiset() =~= items2.to_multiset().remove(e1));
                assert(items2.remove(i).to_multiset().count(e1) > 0);
                assert(items2.to_multiset().remove(e1).count(e1) > 0);
                assert(items2.to_multiset().count(e1) >= 2);
                assert(items1.to_multiset().count(e1) >= 2);
                assert(items1.to_multiset().contains(e1));
                assert(items1.contains(e1));
                let i1 = choose|x: int| 0 <= x < items1.len() && items1[x] == e1;
                assert(items1.remove(i1).to_multiset() =~= items1.to_multiset().remove(e1));
                assert(items1.remove(i1).to_multiset().count(e1) > 0);
                assert(items1.remove(i1).contains(e1));
                let i2 = choose|x: int|
                    0 <= x < items1.remove(i1).len() && items1.remove(i1)[x] == e1;
                if i2 < i1 {
                    assert(items1[i2] == e1);
                    assert(false);
                } else {
                    assert(items1[i2 + 1] == e1);
                    assert(false);
                }
            } else {
                assert(items2.contains(e1));
                assert(items2.contains(e2));
                let i1 = choose|x: int| 0 <= x < items1.len() && items1[x] == e1;
                let i2 = choose|x: int| 0 <= x < items1.len() && items1[x] == e2;
                assert(items1[i1].0 == items1[i2].0 && i1 != i2);
                assert(false);
            }
        }
    }
    assert forall|k: K| #[trigger] assoc_map(items1).contains_key(k) implies assoc_map(
        items2,
    ).contains_key(k) && assoc_map(items2)[k] == assoc_map(items1)[k] by {
        lemma_assoc_map_domain(items1, k);
        lemma_assoc_map_domain(items2, k);
        let i1 = choose|x: int| 0 <= x < items1.len() && (#[trigger] items1[x]).0 == k;
        let e = items1[i1];
        assert(items1.contains(e));
        assert(items2.contains(e));
        let i2 = choose|x: int| 0 <= x < items2.len() && items2[x] == e;
        lemma_assoc_map_last_write(items1, i1);
        lemma_assoc_map_last_write(items2, i2);
    }
    assert forall|k: K| #[trigger] assoc_map(items2).contains_key(k) implies assoc_map(
        items1,
    ).contains_key(k) by {
        lemma_assoc_map_domain(items1, k);
        lemma_assoc_map_domain(items2, k);
        let i2 = choose|x: int| 0 <= x < items2.len() && (#[trigger] items2[x]).0 == k;
        assert(items2.contains(items2[i2]));
        let e = items2[i2];
        let i1 = choose|x: int| 0 <= x < items1.len() && items1[x] == e;
        assert(items1[i1].0 == k);
    }
    assert(assoc_map(items2) =~= assoc_map(items1));
}

} // verus!
