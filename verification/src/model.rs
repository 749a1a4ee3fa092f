use vstd::prelude::*;
use vstd::std_specs::cmp::PartialEqSpec;

verus! {

/// Whether `T`'s executable `==` is known to the verifier to coincide
/// with mathematical equality of values. This holds of the integer and
/// boolean types and of tuples of them, the natural handle types.
pub open spec fn eq_is_structural<T: PartialEq>() -> bool {
    &&& T::obeys_eq_spec()
    &&& forall|a: T, b: T| #[trigger] a.eq_spec(&b) <==> a == b
}

// The mathematical model of the container: a `Map<K, V>` from keys to
// non-owning handles. The functions here describe how sequences of pairs
// and whole mappings combine, and the lemmas state the laws the container
// operations are specified with.

/// The mapping left after recording the pairs of `s` into `m` from front
/// to back: a later pair overwrites an earlier one with the same key.
pub open spec fn insert_pairs<K, V>(m: Map<K, V>, s: Seq<(K, V)>) -> Map<K, V>
    decreases s.len(),
{
    if s.len() == 0 {
        m
    } else {
        insert_pairs(m, s.drop_last()).insert(s.last().0, s.last().1)
    }
}

/// The mapping a sequence of pairs builds from nothing.
pub open spec fn map_of_pairs<K, V>(s: Seq<(K, V)>) -> Map<K, V> {
    insert_pairs(Map::empty(), s)
}

/// The keys of a sequence of pairs, in order.
pub open spec fn keys_of<K, V>(s: Seq<(K, V)>) -> Seq<K> {
    s.map_values(|p: (K, V)| p.0)
}

/// Whether `m` holds no entry at all.
pub open spec fn is_empty_map<K, V>(m: Map<K, V>) -> bool {
    m == Map::<K, V>::empty()
}

/// The handle recorded for `k`, or `None` when `k` is absent.
pub open spec fn opt_get<K, V>(m: Map<K, V>, k: K) -> Option<V> {
    if m.contains_key(k) {
        Some(m[k])
    } else {
        None
    }
}

/// Whether the sequence `s` is a faithful listing of the mapping `m`:
/// every pair of `s` is an entry of `m`, and every key of `m` occurs in
/// `s`.
pub open spec fn lists_entries_of<K, V>(s: Seq<(K, V)>, m: Map<K, V>) -> bool {
    &&& forall|i: int| 0 <= i < s.len() ==> m.contains_pair(#[trigger] s[i].0, s[i].1)
    &&& forall|k: K| #[trigger] m.contains_key(k) ==> keys_of(s).contains(k)
}

/// Whether `out` is the image under `f` of some entry of `m`.
pub open spec fn image_of_entry<K, V, F: Fn(&K, &V) -> (K, V)>(
    f: F,
    m: Map<K, V>,
    out: (K, V),
) -> bool {
    exists|kv: (K, V)| m.contains_pair(kv.0, kv.1) && #[trigger] f.ensures((&kv.0, &kv.1), out)
}

/// Folding a sequence of mappings over `base`: a mapping later in the
/// sequence overwrites `base` and every earlier mapping on a shared key.
pub open spec fn union_fold<K, V>(base: Map<K, V>, ms: Seq<Map<K, V>>) -> Map<K, V>
    decreases ms.len(),
{
    if ms.len() == 0 {
        base
    } else {
        union_fold(base, ms.drop_last()).union_prefer_right(ms.last())
    }
}

/// Recording one more pair extends `insert_pairs` by one insertion.
pub proof fn lemma_insert_pairs_step<K, V>(m: Map<K, V>, s: Seq<(K, V)>, i: int)
    requires
        0 <= i < s.len(),
    ensures
        insert_pairs(m, s.take(i + 1)) == insert_pairs(m, s.take(i)).insert(s[i].0, s[i].1),
{
    assert(s.take(i + 1).drop_last() =~= s.take(i));
    assert(s.take(i + 1).last() == s[i]);
}

/// Keys that never occur in `s` keep in `insert_pairs(m, s)` exactly the
/// binding they had in `m`.
pub proof fn lemma_insert_pairs_untouched<K, V>(m: Map<K, V>, s: Seq<(K, V)>, k: K)
    requires
        !keys_of(s).contains(k),
    ensures
        opt_get(insert_pairs(m, s), k) == opt_get(m, k),
    decreases s.len(),
{
    if s.len() > 0 {
        assert(keys_of(s)[s.len() - 1] == s.last().0);
        assert(keys_of(s.drop_last()) =~= keys_of(s).drop_last());
        assert(forall|j: int|
            0 <= j < keys_of(s).drop_last().len() ==> keys_of(s).drop_last()[j] == keys_of(
                s,
            )[j]);
        lemma_insert_pairs_untouched(m, s.drop_last(), k);
    }
}

/// A key that occurs in `s`, always with the same handle `v`, is bound to
/// `v` in `insert_pairs(m, s)` whatever `m` held.
pub proof fn lemma_insert_pairs_constant<K, V>(m: Map<K, V>, s: Seq<(K, V)>, k: K, v: V)
    requires
        keys_of(s).contains(k),
        forall|i: int| 0 <= i < s.len() && (#[trigger] s[i]).0 == k ==> s[i].1 == v,
    ensures
        insert_pairs(m, s).contains_key(k),
        insert_pairs(m, s)[k] == v,
    decreases s.len(),
{
    assert(s.len() > 0);
    if s.last().0 == k {
        assert(s[s.len() - 1].1 == v);
    } else {
        assert(keys_of(s.drop_last()) =~= keys_of(s).drop_last());
        let j = choose|j: int| 0 <= j < keys_of(s).len() && keys_of(s)[j] == k;
        assert(s[j].0 == k);
        assert(j < s.len() - 1);
        assert(keys_of(s.drop_last())[j] == k);
        lemma_insert_pairs_constant(m, s.drop_last(), k, v);
    }
}

/// Recording a faithful listing of `other` into `m` yields exactly the
/// union in which `other` wins on every shared key. In particular, with
/// `m` empty: rebuilding a container from any faithful listing of its
/// entries restores the original mapping — the round-trip law.
pub proof fn lemma_insert_pairs_listing<K, V>(m: Map<K, V>, s: Seq<(K, V)>, other: Map<K, V>)
    requires
        lists_entries_of(s, other),
    ensures
        insert_pairs(m, s) == m.union_prefer_right(other),
{
    assert forall|k: K| #[trigger]
        insert_pairs(m, s).contains_key(k) == m.union_prefer_right(other).contains_key(k) && (insert_pairs(
            m,
            s,
        ).contains_key(k) ==> insert_pairs(m, s)[k] == m.union_prefer_right(other)[k]) by {
        if other.contains_key(k) {
            assert(keys_of(s).contains(k));
            assert forall|i: int| 0 <= i < s.len() && (#[trigger] s[i]).0 == k implies s[i].1
                == other[k] by {
                assert(other.contains_pair(s[i].0, s[i].1));
            }
            lemma_insert_pairs_constant(m, s, k, other[k]);
        } else {
            if keys_of(s).contains(k) {
                let j = choose|j: int| 0 <= j < keys_of(s).len() && keys_of(s)[j] == k;
                assert(other.contains_pair(s[j].0, s[j].1));
                assert(false);
            }
            lemma_insert_pairs_untouched(m, s, k);
        }
    }
    assert(insert_pairs(m, s) =~= m.union_prefer_right(other));
}

/// The round-trip law: a container drained to a faithful listing of its
/// pairs and rebuilt from that listing holds the original mapping again.
pub proof fn lemma_round_trip<K, V>(s: Seq<(K, V)>, m: Map<K, V>)
    requires
        lists_entries_of(s, m),
    ensures
        map_of_pairs(s) == m,
{
    lemma_insert_pairs_listing(Map::empty(), s, m);
    assert(Map::<K, V>::empty().union_prefer_right(m) =~= m);
}

/// Inserting and then looking the same key up returns exactly the handle
/// just recorded.
pub proof fn lemma_insert_then_get<K, V>(m: Map<K, V>, key: K, value: V)
    ensures
        opt_get(m.insert(key, value), key) == Some(value),
{
}

/// Removing a key and then looking it up reports absence, and no other
/// key's binding changes.
pub proof fn lemma_remove_then_get<K, V>(m: Map<K, V>, key: K, other: K)
    ensures
        opt_get(m.remove(key), key) is None,
        other != key ==> opt_get(m.remove(key), other) == opt_get(m, other),
{
}

/// The priority rule of a two-sided merge: on a shared key the right side
/// wins; a key held by one side alone keeps that side's handle.
pub proof fn lemma_merge_priority<K, V>(a: Map<K, V>, b: Map<K, V>, k: K)
    ensures
        b.contains_key(k) ==> opt_get(a.union_prefer_right(b), k) == Some(b[k]),
        !b.contains_key(k) && a.contains_key(k) ==> opt_get(a.union_prefer_right(b), k) == Some(
            a[k],
        ),
        !a.contains_key(k) && !b.contains_key(k) ==> opt_get(a.union_prefer_right(b), k) is None,
{
}

/// Folding one more mapping extends `union_fold` by one union.
pub proof fn lemma_union_fold_step<K, V>(base: Map<K, V>, ms: Seq<Map<K, V>>, i: int)
    requires
        0 <= i < ms.len(),
    ensures
        union_fold(base, ms.take(i + 1)) == union_fold(base, ms.take(i)).union_prefer_right(ms[i]),
{
    assert(ms.take(i + 1).drop_last() =~= ms.take(i));
    assert(ms.take(i + 1).last() == ms[i]);
}

/// The priority rule of a folded merge: the last mapping in the sequence
/// that holds a key decides that key's handle.
pub proof fn lemma_union_fold_last_wins<K, V>(base: Map<K, V>, ms: Seq<Map<K, V>>, j: int, k: K)
    requires
        0 <= j < ms.len(),
        ms[j].contains_key(k),
        forall|l: int| j < l < ms.len() ==> !(#[trigger] ms[l]).contains_key(k),
    ensures
        union_fold(base, ms).contains_key(k),
        union_fold(base, ms)[k] == ms[j][k],
    decreases ms.len(),
{
    if j == ms.len() - 1 {
    } else {
        assert(ms.drop_last()[j] == ms[j]);
        lemma_union_fold_last_wins(base, ms.drop_last(), j, k);
    }
}

/// The priority rule of combining: the receiver's own entry wins on any
/// key it holds; on any other key the folded list decides.
pub proof fn lemma_combine_priority<K, V>(own: Map<K, V>, ms: Seq<Map<K, V>>, k: K)
    ensures
        own.contains_key(k) ==> opt_get(
            union_fold(Map::<K, V>::empty(), ms).union_prefer_right(own),
            k,
        ) == Some(own[k]),
        !own.contains_key(k) ==> opt_get(
            union_fold(Map::<K, V>::empty(), ms).union_prefer_right(own),
            k,
        ) == opt_get(union_fold(Map::<K, V>::empty(), ms), k),
{
}

/// A key that no mapping of the sequence holds keeps its binding from
/// `base` through the whole fold.
pub proof fn lemma_union_fold_untouched<K, V>(base: Map<K, V>, ms: Seq<Map<K, V>>, k: K)
    requires
        forall|l: int| 0 <= l < ms.len() ==> !(#[trigger] ms[l]).contains_key(k),
    ensures
        opt_get(union_fold(base, ms), k) == opt_get(base, k),
    decreases ms.len(),
{
    if ms.len() > 0 {
        lemma_union_fold_untouched(base, ms.drop_last(), k);
    }
}

} // verus!
