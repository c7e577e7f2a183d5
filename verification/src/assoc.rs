use vstd::prelude::*;

verus! {

// An association list from character-sequence keys to values of any type. The
// store, the per-key mappings, and the registry all view their backing vectors
// through these functions; every insertion keeps keys distinct.
pub open spec fn assoc_contains_key<V>(s: Seq<(Seq<char>, V)>, k: Seq<char>) -> bool {
    exists|i: int| 0 <= i < s.len() && (#[trigger] s[i]).0 == k
}

pub open spec fn assoc_keys_distinct<V>(s: Seq<(Seq<char>, V)>) -> bool {
    forall|i: int, j: int| 0 <= i < j < s.len() ==> (#[trigger] s[i]).0 != (#[trigger] s[j]).0
}

/// The value at the first pair whose key is `k`, if any.
pub open spec fn assoc_get<V>(s: Seq<(Seq<char>, V)>, k: Seq<char>) -> Option<V>
    decreases s.len(),
{
    if s.len() == 0 {
        None
    } else if s[0].0 == k {
        Some(s[0].1)
    } else {
        assoc_get(s.drop_first(), k)
    }
}

/// Replaces the value at `k` in place, or appends the pair at the end.
pub open spec fn assoc_insert<V>(s: Seq<(Seq<char>, V)>, k: Seq<char>, v: V) -> Seq<(Seq<char>, V)>
    decreases s.len(),
{
    if s.len() == 0 {
        seq![(k, v)]
    } else if s[0].0 == k {
        seq![(k, v)] + s.drop_first()
    } else {
        seq![s[0]] + assoc_insert(s.drop_first(), k, v)
    }
}

/// Removes the first pair whose key is `k`, if any.
pub open spec fn assoc_remove<V>(s: Seq<(Seq<char>, V)>, k: Seq<char>) -> Seq<(Seq<char>, V)>
    decreases s.len(),
{
    if s.len() == 0 {
        s
    } else if s[0].0 == k {
        s.drop_first()
    } else {
        seq![s[0]] + assoc_remove(s.drop_first(), k)
    }
}

/// The keys, in storage order.
pub open spec fn assoc_keys<V>(s: Seq<(Seq<char>, V)>) -> Seq<Seq<char>> {
    s.map_values(|p: (Seq<char>, V)| p.0)
}

/// The values, in storage order.
pub open spec fn assoc_values<V>(s: Seq<(Seq<char>, V)>) -> Seq<V> {
    s.map_values(|p: (Seq<char>, V)| p.1)
}

/// The finite map an association list denotes.
pub open spec fn assoc_map<V>(s: Seq<(Seq<char>, V)>) -> Map<Seq<char>, V> {
    Map::new(|k: Seq<char>| assoc_contains_key(s, k), |k: Seq<char>| assoc_get(s, k)->Some_0)
}

pub proof fn lemma_assoc_get_some<V>(s: Seq<(Seq<char>, V)>, k: Seq<char>)
    ensures
        assoc_contains_key(s, k) <==> assoc_get(s, k) is Some,
    decreases s.len(),
{
    if s.len() > 0 && s[0].0 != k {
        lemma_assoc_get_some(s.drop_first(), k);
        assert forall|i: int| 0 <= i < s.len() && (#[trigger] s[i]).0 == k implies assoc_get(
            s,
            k,
        ) is Some by {
            assert(s.drop_first()[i - 1] == s[i]);
        }
        if assoc_contains_key(s.drop_first(), k) {
            let i = choose|i: int|
                0 <= i < s.drop_first().len() && (#[trigger] s.drop_first()[i]).0 == k;
            assert(s[i + 1] == s.drop_first()[i]);
        }
    }
}

/// Looking a key up finds the pair that holds it, when keys are distinct.
pub proof fn lemma_assoc_get_at_index<V>(s: Seq<(Seq<char>, V)>, i: int)
    requires
        0 <= i < s.len(),
        forall|j: int| 0 <= j < i ==> (#[trigger] s[j]).0 != s[i].0,
    ensures
        assoc_get(s, s[i].0) == Some(s[i].1),
    decreases i,
{
    if i > 0 {
        assert(s[0].0 != s[i].0);
        assert(s.drop_first()[i - 1] == s[i]);
        assert forall|j: int| 0 <= j < i - 1 implies (#[trigger] s.drop_first()[j]).0 != s.drop_first()[i
            - 1].0 by {
            assert(s.drop_first()[j] == s[j + 1]);
        }
        lemma_assoc_get_at_index(s.drop_first(), i - 1);
    }
}

pub proof fn lemma_assoc_get_absent<V>(s: Seq<(Seq<char>, V)>, k: Seq<char>)
    requires
        forall|i: int| 0 <= i < s.len() ==> (#[trigger] s[i]).0 != k,
    ensures
        assoc_get(s, k) is None,
        !assoc_contains_key(s, k),
    decreases s.len(),
{
    if s.len() > 0 {
        assert forall|i: int| 0 <= i < s.drop_first().len() implies (#[trigger] s.drop_first()[i]).0
            != k by {
            assert(s.drop_first()[i] == s[i + 1]);
        }
        lemma_assoc_get_absent(s.drop_first(), k);
    }
}

/// Replacing the value at the pair that holds `k` is the in-place update.
pub proof fn lemma_assoc_insert_found<V>(s: Seq<(Seq<char>, V)>, i: int, v: V)
    requires
        0 <= i < s.len(),
        forall|j: int| 0 <= j < i ==> (#[trigger] s[j]).0 != s[i].0,
    ensures
        assoc_insert(s, s[i].0, v) =~= s.update(i, (s[i].0, v)),
    decreases i,
{
    if i == 0 {
        assert(assoc_insert(s, s[0].0, v) =~= seq![(s[0].0, v)] + s.drop_first());
    } else {
        assert(s[0].0 != s[i].0);
        assert(s.drop_first()[i - 1] == s[i]);
        assert forall|j: int| 0 <= j < i - 1 implies (#[trigger] s.drop_first()[j]).0 != s.drop_first()[i
            - 1].0 by {
            assert(s.drop_first()[j] == s[j + 1]);
        }
        lemma_assoc_insert_found(s.drop_first(), i - 1, v);
    }
}

/// Inserting an absent key appends the pair.
pub proof fn lemma_assoc_insert_absent<V>(s: Seq<(Seq<char>, V)>, k: Seq<char>, v: V)
    requires
        forall|i: int| 0 <= i < s.len() ==> (#[trigger] s[i]).0 != k,
    ensures
        assoc_insert(s, k, v) =~= s.push((k, v)),
    decreases s.len(),
{
    if s.len() > 0 {
        assert forall|i: int| 0 <= i < s.drop_first().len() implies (#[trigger] s.drop_first()[i]).0
            != k by {
            assert(s.drop_first()[i] == s[i + 1]);
        }
        lemma_assoc_insert_absent(s.drop_first(), k, v);
    }
}

/// Removing the key of the pair at `i` deletes exactly that pair.
pub proof fn lemma_assoc_remove_found<V>(s: Seq<(Seq<char>, V)>, i: int)
    requires
        0 <= i < s.len(),
        forall|j: int| 0 <= j < i ==> (#[trigger] s[j]).0 != s[i].0,
    ensures
        assoc_remove(s, s[i].0) =~= s.subrange(0, i) + s.subrange(i + 1, s.len() as int),
    decreases i,
{
    if i == 0 {
        assert(assoc_remove(s, s[0].0) =~= s.subrange(0, 0) + s.subrange(1, s.len() as int));
    } else {
        assert(s[0].0 != s[i].0);
        assert(s.drop_first()[i - 1] == s[i]);
        assert forall|j: int| 0 <= j < i - 1 implies (#[trigger] s.drop_first()[j]).0 != s.drop_first()[i
            - 1].0 by {
            assert(s.drop_first()[j] == s[j + 1]);
        }
        lemma_assoc_remove_found(s.drop_first(), i - 1);
        assert(assoc_remove(s, s[i].0) =~= seq![s[0]] + assoc_remove(s.drop_first(), s[i].0));
        assert(s.drop_first().subrange(0, i - 1) =~= s.subrange(1, i));
        assert(s.drop_first().subrange(i, s.drop_first().len() as int) =~= s.subrange(
            i + 1,
            s.len() as int,
        ));
        assert(seq![s[0]] + (s.subrange(1, i) + s.subrange(i + 1, s.len() as int)) =~= s.subrange(
            0,
            i,
        ) + s.subrange(i + 1, s.len() as int));
    }
}

pub proof fn lemma_assoc_remove_absent<V>(s: Seq<(Seq<char>, V)>, k: Seq<char>)
    requires
        forall|i: int| 0 <= i < s.len() ==> (#[trigger] s[i]).0 != k,
    ensures
        assoc_remove(s, k) =~= s,
    decreases s.len(),
{
    if s.len() > 0 {
        assert forall|i: int| 0 <= i < s.drop_first().len() implies (#[trigger] s.drop_first()[i]).0
            != k by {
            assert(s.drop_first()[i] == s[i + 1]);
        }
        lemma_assoc_remove_absent(s.drop_first(), k);
        assert(assoc_remove(s, k) =~= seq![s[0]] + s.drop_first());
        assert(seq![s[0]] + s.drop_first() =~= s);
    }
}

/// What lookup sees after an insertion.
pub proof fn lemma_assoc_get_insert<V>(s: Seq<(Seq<char>, V)>, k: Seq<char>, v: V, k2: Seq<char>)
    ensures
        assoc_get(assoc_insert(s, k, v), k2) == if k2 == k {
            Some(v)
        } else {
            assoc_get(s, k2)
        },
    decreases s.len(),
{
    if s.len() == 0 {
        let t = assoc_insert(s, k, v);
        assert(t.len() == 1);
        assert(t[0] == (k, v));
        assert(t.drop_first() =~= Seq::<(Seq<char>, V)>::empty());
        if k2 == k {
            assert(assoc_get(t, k2) == Some(v));
        } else {
            assert(assoc_get(t, k2) == assoc_get(t.drop_first(), k2));
            assert(assoc_get(t, k2) is None);
        }
    } else if s[0].0 == k {
        let t = assoc_insert(s, k, v);
        assert(t.len() == 1 + s.drop_first().len());
        assert(t[0] == (k, v));
        assert(t.drop_first() =~= s.drop_first());
        if k2 == k {
            assert(assoc_get(t, k2) == Some(v));
        } else {
            assert(assoc_get(t, k2) == assoc_get(s.drop_first(), k2));
            assert(assoc_get(s, k2) == assoc_get(s.drop_first(), k2));
        }
    } else {
        lemma_assoc_get_insert(s.drop_first(), k, v, k2);
        let t = assoc_insert(s, k, v);
        assert(t.len() == 1 + assoc_insert(s.drop_first(), k, v).len());
        assert(t[0] == s[0]);
        assert(t.drop_first() =~= assoc_insert(s.drop_first(), k, v));
        if k2 == s[0].0 {
            assert(assoc_get(t, k2) == Some(s[0].1));
            assert(assoc_get(s, k2) == Some(s[0].1));
        } else {
            assert(assoc_get(t, k2) == assoc_get(assoc_insert(s.drop_first(), k, v), k2));
            assert(assoc_get(s, k2) == assoc_get(s.drop_first(), k2));
        }
    }
}

/// What lookup sees after a removal, when keys are distinct.
pub proof fn lemma_assoc_get_remove<V>(s: Seq<(Seq<char>, V)>, k: Seq<char>, k2: Seq<char>)
    requires
        assoc_keys_distinct(s),
    ensures
        assoc_get(assoc_remove(s, k), k2) == if k2 == k {
            None
        } else {
            assoc_get(s, k2)
        },
    decreases s.len(),
{
    if s.len() == 0 {
    } else if s[0].0 == k {
        lemma_assoc_keys_distinct_drop_first(s);
        if k2 == k {
            lemma_assoc_get_some(s.drop_first(), k);
            if assoc_contains_key(s.drop_first(), k) {
                let i = choose|i: int|
                    0 <= i < s.drop_first().len() && (#[trigger] s.drop_first()[i]).0 == k;
                assert(s[i + 1] == s.drop_first()[i]);
                assert(false);
            }
        }
    } else {
        lemma_assoc_keys_distinct_drop_first(s);
        lemma_assoc_get_remove(s.drop_first(), k, k2);
        let t = assoc_remove(s, k);
        assert(t[0] == s[0]);
        assert(t.drop_first() =~= assoc_remove(s.drop_first(), k));
    }
}

pub proof fn lemma_assoc_keys_distinct_drop_first<V>(s: Seq<(Seq<char>, V)>)
    requires
        assoc_keys_distinct(s),
        s.len() > 0,
    ensures
        assoc_keys_distinct(s.drop_first()),
{
    assert forall|i: int, j: int| 0 <= i < j < s.drop_first().len() implies (#[trigger] s.drop_first()[i]).0
        != (#[trigger] s.drop_first()[j]).0 by {
        assert(s.drop_first()[i] == s[i + 1]);
        assert(s.drop_first()[j] == s[j + 1]);
    }
}

/// Insertion keeps keys distinct.
pub proof fn lemma_assoc_insert_distinct<V>(s: Seq<(Seq<char>, V)>, k: Seq<char>, v: V)
    requires
        assoc_keys_distinct(s),
    ensures
        assoc_keys_distinct(assoc_insert(s, k, v)),
    decreases s.len(),
{
    let t = assoc_insert(s, k, v);
    if s.len() == 0 {
    } else if s[0].0 == k {
        assert forall|i: int, j: int| 0 <= i < j < t.len() implies (#[trigger] t[i]).0 != (
        #[trigger] t[j]).0 by {
            assert(t[j] == s[j]);
            if i > 0 {
                assert(t[i] == s[i]);
            } else {
                assert(t[0].0 == s[0].0);
            }
        }
    } else {
        lemma_assoc_keys_distinct_drop_first(s);
        lemma_assoc_insert_distinct(s.drop_first(), k, v);
        lemma_assoc_get_insert(s.drop_first(), k, v, s[0].0);
        lemma_assoc_get_some(assoc_insert(s.drop_first(), k, v), s[0].0);
        lemma_assoc_get_some(s.drop_first(), s[0].0);
        let u = assoc_insert(s.drop_first(), k, v);
        assert(t[0] == s[0]);
        assert forall|i: int, j: int| 0 <= i < j < t.len() implies (#[trigger] t[i]).0 != (
        #[trigger] t[j]).0 by {
            if i == 0 {
                assert(t[j] == u[j - 1]);
                if u[j - 1].0 == s[0].0 {
                    assert(assoc_contains_key(u, s[0].0));
                    if s[0].0 != k {
                        assert(assoc_get(s.drop_first(), s[0].0) is Some);
                        assert(assoc_contains_key(s.drop_first(), s[0].0));
                        let m = choose|m: int|
                            0 <= m < s.drop_first().len() && (#[trigger] s.drop_first()[m]).0
                                == s[0].0;
                        assert(s[m + 1] == s.drop_first()[m]);
                        assert(false);
                    }
                }
            } else {
                assert(t[i] == u[i - 1]);
                assert(t[j] == u[j - 1]);
            }
        }
    }
}

/// Removal keeps keys distinct.
pub proof fn lemma_assoc_remove_distinct<V>(s: Seq<(Seq<char>, V)>, k: Seq<char>)
    requires
        assoc_keys_distinct(s),
    ensures
        assoc_keys_distinct(assoc_remove(s, k)),
    decreases s.len(),
{
    if s.len() == 0 {
    } else {
        lemma_assoc_keys_distinct_drop_first(s);
        if s[0].0 == k {
        } else {
            lemma_assoc_remove_distinct(s.drop_first(), k);
            let t = assoc_remove(s, k);
            let u = assoc_remove(s.drop_first(), k);
            assert(t[0] == s[0]);
            lemma_assoc_remove_subset(s.drop_first(), k);
            assert forall|i: int, j: int| 0 <= i < j < t.len() implies (#[trigger] t[i]).0 != (
            #[trigger] t[j]).0 by {
                if i == 0 {
                    assert(t[j] == u[j - 1]);
                    let m = choose|m: int| 0 <= m < s.drop_first().len() && s.drop_first()[m] == u[j
                        - 1];
                    assert(s[m + 1] == s.drop_first()[m]);
                } else {
                    assert(t[i] == u[i - 1]);
                    assert(t[j] == u[j - 1]);
                }
            }
        }
    }
}

/// Every pair left after a removal stood in the original list.
pub proof fn lemma_assoc_remove_subset<V>(s: Seq<(Seq<char>, V)>, k: Seq<char>)
    ensures
        forall|i: int|
            0 <= i < assoc_remove(s, k).len() ==> s.contains(#[trigger] assoc_remove(s, k)[i]),
    decreases s.len(),
{
    if s.len() > 0 {
        if s[0].0 == k {
            assert forall|i: int| 0 <= i < assoc_remove(s, k).len() implies s.contains(
                #[trigger] assoc_remove(s, k)[i],
            ) by {
                assert(assoc_remove(s, k)[i] == s[i + 1]);
            }
        } else {
            lemma_assoc_remove_subset(s.drop_first(), k);
            let t = assoc_remove(s, k);
            assert forall|i: int| 0 <= i < t.len() implies s.contains(#[trigger] t[i]) by {
                if i == 0 {
                    assert(t[0] == s[0]);
                } else {
                    assert(t[i] == assoc_remove(s.drop_first(), k)[i - 1]);
                    let u = assoc_remove(s.drop_first(), k);
                    assert(s.drop_first().contains(u[i - 1]));
                    let m = choose|m: int|
                        0 <= m < s.drop_first().len() && s.drop_first()[m] == u[i - 1];
                    assert(s[m + 1] == s.drop_first()[m]);
                }
            }
        }
    }
}

/// Each pair of a distinct-keyed list appears in the map it denotes.
pub proof fn lemma_assoc_map_index<V>(s: Seq<(Seq<char>, V)>, i: int)
    requires
        assoc_keys_distinct(s),
        0 <= i < s.len(),
    ensures
        assoc_map(s).contains_key(s[i].0),
        assoc_map(s)[s[i].0] == s[i].1,
{
    lemma_assoc_get_at_index(s, i);
}

/// A key no pair holds is absent from the map.
pub proof fn lemma_assoc_map_absent<V>(s: Seq<(Seq<char>, V)>, k: Seq<char>)
    requires
        forall|i: int| 0 <= i < s.len() ==> (#[trigger] s[i]).0 != k,
    ensures
        !assoc_map(s).contains_key(k),
{
    lemma_assoc_get_absent(s, k);
}

/// The map denoted by the list, after an insertion.
pub proof fn lemma_assoc_map_insert<V>(s: Seq<(Seq<char>, V)>, k: Seq<char>, v: V)
    ensures
        assoc_map(assoc_insert(s, k, v)) =~= assoc_map(s).insert(k, v),
{
    let t = assoc_insert(s, k, v);
    assert forall|k2: Seq<char>| true implies {
        &&& assoc_contains_key(t, k2) <==> assoc_map(s).insert(k, v).dom().contains(k2)
        &&& (assoc_contains_key(t, k2) ==> assoc_get(t, k2)->Some_0 == assoc_map(s).insert(
            k,
            v,
        )[k2])
    } by {
        lemma_assoc_get_insert(s, k, v, k2);
        lemma_assoc_get_some(t, k2);
        lemma_assoc_get_some(s, k2);
    }
}

/// The map denoted by the list, after a removal.
pub proof fn lemma_assoc_map_remove<V>(s: Seq<(Seq<char>, V)>, k: Seq<char>)
    requires
        assoc_keys_distinct(s),
    ensures
        assoc_map(assoc_remove(s, k)) =~= assoc_map(s).remove(k),
{
    let t = assoc_remove(s, k);
    assert forall|k2: Seq<char>| true implies {
        &&& assoc_contains_key(t, k2) <==> assoc_map(s).remove(k).dom().contains(k2)
        &&& (assoc_contains_key(t, k2) ==> assoc_get(t, k2)->Some_0 == assoc_map(s).remove(k)[k2])
    } by {
        lemma_assoc_get_remove(s, k, k2);
        lemma_assoc_get_some(t, k2);
        lemma_assoc_get_some(s, k2);
    }
}

} // verus!
