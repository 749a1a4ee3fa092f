use vstd::prelude::*;
use vstd::std_specs::hash::builds_valid_hashers;
use vstd::std_specs::iter::IteratorSpec;
use vstd::std_specs::hash::obeys_key_model;
use std::collections::HashMap;
use fxhash::FxBuildHasher;

verus! {

broadcast use vstd::std_specs::hash::group_hash_axioms;

/// Declares `fxhash::FxHasher` to the verifier: the hasher the backing
/// tables are built with. Its state is opaque here; all the container
/// relies on is recorded at the trusted constructor below.
#[verifier::external_type_specification]
#[verifier::external_body]
pub struct ExFxHasher(fxhash::FxHasher);

/// Declares `core::hash::BuildHasherDefault` to the verifier, since
/// `fxhash::FxBuildHasher` is `BuildHasherDefault<FxHasher>` and vstd
/// gives this std type no specification of its own.
#[verifier::external_type_specification]
#[verifier::external_body]
#[verifier::reject_recursive_types(H)]
pub struct ExBuildHasherDefault<H>(std::hash::BuildHasherDefault<H>);

/// A possibly-null, non-owning reference: either a live handle or null.
/// This is the raw form a handle takes at the container's unchecked
/// interop boundary, where a caller may hand in an address-like value
/// that has not been checked for liveness.
#[derive(Debug, Clone, Copy, PartialEq, Eq)]
pub enum RawRef<V> {
    /// No referent at all.
    Null,
    /// A live handle.
    Ref(V),
}

impl<V> RawRef<V> {
    /// Whether this raw reference is null.
    pub fn is_null(&self) -> (r: bool)
        ensures
            r <==> self is Null,
    {
        match self {
            RawRef::Null => true,
            RawRef::Ref(_) => false,
        }
    }
}

/// Copying the borrowed entries of a container into a newly owned
/// mapping, independent of the container they came from.
pub trait IntoOwned<K, V> {
    /// When the source is fit for conversion.
    spec fn owned_req(&self) -> bool;

    /// What the produced mapping holds, relative to the source.
    spec fn owned_ens(&self, owned: HashMap<K, V>) -> bool;

    /// An owned mapping holding the same keys and handles as `self`,
    /// with no remaining tie to `self`'s backing table.
    fn into_owned(&self) -> (owned: HashMap<K, V>)
        requires
            self.owned_req(),
        ensures
            self.owned_ens(owned),
    ;
}

/// Folding several containers of the same kind into a fresh one, with
/// the receiver's own entries winning every key collision.
pub trait CombineWith: Sized {
    /// When the receiver and the list are fit for combining.
    spec fn combine_req(&self, others: Seq<Self>) -> bool;

    /// What the combined container holds, relative to the receiver and
    /// the list.
    spec fn combine_ens(&self, others: Seq<Self>, combined: Self) -> bool;

    /// A fresh container folding the list in order and then layering
    /// `self`'s own entries on top, so `self` wins every key collision
    /// with the list.
    fn combine_with(&self, others: Vec<Self>) -> (combined: Self)
        requires
            self.combine_req(others@),
        ensures
            self.combine_ens(others@, combined),
    ;
}

/// An associative container that stores non-owning handles to values
/// owned elsewhere. It maps each key to one handle, never touching the
/// data a handle stands for: entries are recorded, replaced, removed and
/// merged, while the referenced values stay where their owners put them.
///
/// The backing table is a fxhash table. Exclusive access is enforced at
/// compile time: every mutating operation takes the container by `&mut`,
/// so no two overlapping operations can both see the table.
pub struct DataCloud<K: PartialEq + Eq + std::hash::Hash, V: PartialEq + Eq> {
    nodes: HashMap<K, V, FxBuildHasher>,
}

impl<K: PartialEq + Eq + std::hash::Hash, V: PartialEq + Eq> DataCloud<K, V> {
    /// The container's mathematical content: the mapping from keys to
    /// handles.
    pub closed spec fn view(&self) -> Map<K, V> {
        self.nodes@
    }

    /// Well-formedness of the backing table: its hasher family builds
    /// hashers that give equal keys equal hashes. The trusted
    /// constructor establishes this, and since it is a property of the
    /// hasher family rather than of one table, it holds from then on.
    pub open spec fn wf(&self) -> bool {
        builds_valid_hashers::<FxBuildHasher>()
    }

    /// Relies on `fxhash::FxHashMap::default` (a `HashMap` hashed by
    /// `FxBuildHasher`): the new table is empty. `FxBuildHasher` is a
    /// stateless unit type whose every `FxHasher` starts from the same
    /// fixed state, so equal byte streams always hash alike; that is
    /// what `cloud.wf()` records.
    #[verifier::external_body]
    fn fx_backed_empty() -> (cloud: DataCloud<K, V>)
        ensures
            crate::model::is_empty_map(cloud@),
            cloud.wf(),
    {
        DataCloud { nodes: fxhash::FxHashMap::default() }
    }

    /// A new, empty container.
    pub fn new() -> (cloud: DataCloud<K, V>)
        ensures
            cloud@ == Map::<K, V>::empty(),
            cloud.wf(),
    {
        Self::fx_backed_empty()
    }

    /// Records `value` under `key`. Returns the handle previously
    /// recorded for that key, or `None` if the key was new. Always
    /// succeeds.
    pub fn insert(&mut self, key: K, value: V) -> (previous: Option<V>)
        requires
            obeys_key_model::<K>(),
            old(self).wf(),
        ensures
            final (self)@ == old(self)@.insert(key, value),
            previous == crate::model::opt_get(old(self)@, key),
    {
        self.nodes.insert(key, value)
    }

    /// Records `value` under `key` only if the key is absent. Returns
    /// whether the key was already present; when it was, the stored
    /// handle is left unchanged.
    pub fn or_insert(&mut self, key: K, value: V) -> (was_present: bool)
        requires
            obeys_key_model::<K>(),
            old(self).wf(),
        ensures
            was_present == old(self)@.contains_key(key),
            was_present ==> final (self)@ == old(self)@,
            !was_present ==> final (self)@ == old(self)@.insert(key, value),
    {
        if !self.nodes.contains_key(&key) {
            self.nodes.insert(key, value);
            return false;
        }
        true
    }

    /// The handle recorded for `key`, or `None`.
    pub fn get(&self, key_to_search_for: &K) -> (r: Option<&V>)
        requires
            obeys_key_model::<K>(),
            self.wf(),
        ensures
            match r {
                Some(v) => self@.contains_key(*key_to_search_for) && *v == self@[*key_to_search_for],
                None => !self@.contains_key(*key_to_search_for),
            },
    {
        self.nodes.get(key_to_search_for)
    }

    /// Deletes the entry recorded for `key`. Returns the removed handle,
    /// or `None` when the key was absent; the referenced value is not
    /// touched either way.
    pub fn remove(&mut self, key: &K) -> (removed: Option<V>)
        requires
            obeys_key_model::<K>(),
            old(self).wf(),
        ensures
            final (self)@ == old(self)@.remove(*key),
            removed == crate::model::opt_get(old(self)@, *key),
    {
        self.nodes.remove(key)
    }

    /// Whether a handle is recorded under `key`.
    pub fn contains_key(&self, key: &K) -> (r: bool)
        requires
            obeys_key_model::<K>(),
            self.wf(),
        ensures
            r == self@.contains_key(*key),
    {
        self.nodes.contains_key(key)
    }

    /// Whether the container holds no entries at all.
    pub fn is_empty(&self) -> (r: bool)
        ensures
            r == (self@ == Map::<K, V>::empty()),
    {
        let empty = self.nodes.is_empty();
        proof {
            if self@.is_empty() {
                assert(self@ =~= Map::<K, V>::empty());
            }
        }
        empty
    }

    /// Drops every entry. The referenced values are not touched.
    pub fn clear(&mut self)
        ensures
            final (self)@ == Map::<K, V>::empty(),
    {
        self.nodes.clear();
    }

    /// A snapshot of the keys currently present, in the arbitrary order
    /// the backing table yields them.
    fn snapshot_keys(&self) -> (out: Vec<K>) where K: Copy
        requires
            obeys_key_model::<K>(),
            self.wf(),
        ensures
            out@.no_duplicates(),
            out@.to_set() == self@.dom(),
            out@.len() == self@.len(),
    {
        let mut out: Vec<K> = Vec::new();
        for k in it: self.nodes.keys()
            invariant
                obeys_key_model::<K>(),
                self.wf(),
                it.seq() == vstd::std_specs::hash::spec_keys_iter(&self.nodes).remaining(),
                out@ == it.seq().take(it.index()).unref(),
        {
            out.push(*k);
        }
        proof {
            let ks = vstd::std_specs::hash::spec_keys_iter(&self.nodes).remaining();
            assert(out@ =~= ks.unref());
            assert forall|i: int, j: int|
                0 <= i < out@.len() && 0 <= j < out@.len() && i != j implies out@[i] != out@[j] by {
                assert(ks[i] != ks[j]);
            }
            assert(out@.to_set() =~= self@.dom());
        }
        out
    }

    /// A snapshot of the entries currently present, as copied key/handle
    /// pairs, in the arbitrary order the backing table yields them.
    fn snapshot_pairs(&self) -> (out: Vec<(K, V)>) where K: Copy, V: Copy
        requires
            obeys_key_model::<K>(),
            self.wf(),
        ensures
            crate::model::lists_entries_of(out@, self@),
            crate::model::keys_of(out@).no_duplicates(),
            out@.len() == self@.len(),
    {
        let mut out: Vec<(K, V)> = Vec::new();
        for kv in it: self.nodes.iter()
            invariant
                obeys_key_model::<K>(),
                self.wf(),
                it.seq() == vstd::std_specs::hash::spec_hash_map_iter(&self.nodes).remaining(),
                out@ == it.seq().take(it.index()).unref(),
        {
            out.push((*kv.0, *kv.1));
        }
        proof {
            let ps = vstd::std_specs::hash::spec_hash_map_iter(&self.nodes).remaining();
            assert(out@ =~= ps.unref());
            assert forall|i: int| 0 <= i < out@.len() implies self@.contains_pair(
                #[trigger] out@[i].0,
                out@[i].1,
            ) by {
                assert(self@.contains_key(*ps[i].0) && self@[*ps[i].0] == *ps[i].1);
            }
            assert forall|k: K| #[trigger]
                self@.contains_key(k) implies crate::model::keys_of(out@).contains(k) by {
                assert(ps.contains((&k, &self@[k])));
                let i = choose|i: int| 0 <= i < ps.len() && ps[i] == (&k, &self@[k]);
                assert(crate::model::keys_of(out@)[i] == k);
            }
            assert forall|i: int, j: int|
                0 <= i < out@.len() && 0 <= j < out@.len() && i != j implies crate::model::keys_of(
                out@,
            )[i] != crate::model::keys_of(out@)[j] by {
                assert(ps[i] != ps[j]);
                assert(self@.contains_key(*ps[i].0) && self@[*ps[i].0] == *ps[i].1);
                assert(self@.contains_key(*ps[j].0) && self@[*ps[j].0] == *ps[j].1);
            }
        }
        out
    }

    /// Consumes the container and returns its entries as a vector of
    /// key/handle pairs, in arbitrary order with each key exactly once.
    pub fn into_vec(self) -> (out: Vec<(K, V)>) where K: Copy
        requires
            obeys_key_model::<K>(),
            self.wf(),
        ensures
            crate::model::lists_entries_of(out@, self@),
            crate::model::keys_of(out@).no_duplicates(),
            out@.len() == self@.len(),
            crate::model::map_of_pairs(out@) == self@,
    {
        let ghost m0 = self@;
        let mut this = self;
        let keys = this.snapshot_keys();
        let mut out: Vec<(K, V)> = Vec::new();
        for i in 0..keys.len()
            invariant
                obeys_key_model::<K>(),
                this.wf(),
                keys@.no_duplicates(),
                keys@.to_set() == m0.dom(),
                this@ =~= m0.remove_keys(keys@.take(i as int).to_set()),
                out@.len() == i,
                forall|j: int| 0 <= j < i ==> out@[j] == (keys@[j], m0[keys@[j]]),
        {
            let k = keys[i];
            proof {
                assert(keys@.to_set().contains(keys@[i as int]));
                assert(!keys@.take(i as int).to_set().contains(keys@[i as int])) by {
                    if keys@.take(i as int).to_set().contains(keys@[i as int]) {
                        let j = choose|j: int|
                            0 <= j < i && keys@.take(i as int)[j] == keys@[i as int];
                        assert(keys@[j] == keys@[i as int]);
                    }
                }
            }
            let v = this.remove(&k).unwrap();
            out.push((k, v));
            proof {
                let prefix = keys@.take(i as int);
                let extended = keys@.take(i + 1);
                assert(extended.to_set() =~= prefix.to_set().insert(keys@[i as int])) by {
                    assert forall|x: K| #[trigger]
                        extended.to_set().contains(x) implies prefix.to_set().contains(x) || x
                        == keys@[i as int] by {
                        let j = choose|j: int| 0 <= j < extended.len() && extended[j] == x;
                        if j < i {
                            assert(prefix[j] == x);
                        }
                    }
                    assert forall|x: K| #[trigger]
                        prefix.to_set().contains(x) implies extended.to_set().contains(x) by {
                        let j = choose|j: int| 0 <= j < prefix.len() && prefix[j] == x;
                        assert(extended[j] == x);
                    }
                    assert(extended[i as int] == keys@[i as int]);
                }
                assert(this@ =~= m0.remove_keys(keys@.take(i + 1).to_set()));
            }
        }
        proof {
            assert forall|k: K| #[trigger]
                m0.contains_key(k) implies crate::model::keys_of(out@).contains(k) by {
                assert(keys@.to_set().contains(k));
                let j = choose|j: int| 0 <= j < keys@.len() && keys@[j] == k;
                assert(crate::model::keys_of(out@)[j] == k);
            }
            assert forall|i: int, j: int|
                0 <= i < out@.len() && 0 <= j < out@.len() && i != j implies crate::model::keys_of(
                out@,
            )[i] != crate::model::keys_of(out@)[j] by {
                assert(keys@[i] != keys@[j]);
            }
            crate::model::lemma_round_trip(out@, m0);
        }
        out
    }

    /// Records every pair of `pairs` into the container, from front to
    /// back: on a repeated key the later pair wins.
    pub fn extend(&mut self, pairs: Vec<(K, V)>)
        requires
            obeys_key_model::<K>(),
            old(self).wf(),
        ensures
            final (self)@ == crate::model::insert_pairs(old(self)@, pairs@),
    {
        let ghost all = pairs@;
        let ghost m0 = self@;
        for p in it: pairs.into_iter()
            invariant
                obeys_key_model::<K>(),
                self.wf(),
                it.seq() == all,
                self@ == crate::model::insert_pairs(m0, all.take(it.index())),
        {
            self.insert(p.0, p.1);
            proof {
                crate::model::lemma_insert_pairs_step(m0, all, it.index());
            }
        }
        proof {
            assert(all.take(all.len() as int) =~= all);
        }
    }

    /// Builds a container from a vector of key/handle pairs, recording
    /// the pairs from front to back: on a repeated key the later pair
    /// wins.
    pub fn from_vec(vec: Vec<(K, V)>) -> (cloud: DataCloud<K, V>)
        requires
            obeys_key_model::<K>(),
        ensures
            cloud@ == crate::model::map_of_pairs(vec@),
            cloud.wf(),
    {
        let mut cloud: DataCloud<K, V> = DataCloud::new();
        cloud.extend(vec);
        cloud
    }

    /// A fresh container holding the union of `self` and `other`. On a
    /// key both hold, `other`'s handle wins; a key held by one side
    /// alone keeps that side's handle. Both inputs are left untouched.
    pub fn merge(&self, other: &DataCloud<K, V>) -> (merged: DataCloud<K, V>) where
        K: Copy,
        V: Copy,

        requires
            obeys_key_model::<K>(),
            self.wf(),
        ensures
            merged@ == self@.union_prefer_right(other@),
            merged.wf(),
    {
        let mut merged: DataCloud<K, V> = DataCloud::new();
        let own = self.snapshot_pairs();
        proof {
            crate::model::lemma_insert_pairs_listing(Map::<K, V>::empty(), own@, self@);
        }
        merged.extend(own);
        let theirs = other.snapshot_pairs();
        proof {
            assert(Map::<K, V>::empty().union_prefer_right(self@) =~= self@);
            crate::model::lemma_insert_pairs_listing(self@, theirs@, other@);
        }
        merged.extend(theirs);
        merged
    }

    /// Absorbs `other` into `self`, consuming `other`: every entry of
    /// `other` is recorded here, overwriting this container's own entry
    /// on a shared key.
    pub fn merge_in_place(&mut self, other: DataCloud<K, V>) where K: Copy
        requires
            obeys_key_model::<K>(),
            old(self).wf(),
        ensures
            final (self)@ == old(self)@.union_prefer_right(other@),
    {
        let ghost m0 = self@;
        let pairs = other.into_vec();
        proof {
            crate::model::lemma_insert_pairs_listing(m0, pairs@, other@);
        }
        self.extend(pairs);
    }

    /// Absorbs `self` into `other`, consuming `self`: every entry of
    /// `self` is recorded in `other`, overwriting `other`'s own entry on
    /// a shared key.
    pub fn merge_with(self, other: &mut DataCloud<K, V>) where K: Copy
        requires
            obeys_key_model::<K>(),
            old(other).wf(),
        ensures
            final (other)@ == old(other)@.union_prefer_right(self@),
    {
        let ghost m0 = other@;
        let pairs = self.into_vec();
        proof {
            crate::model::lemma_insert_pairs_listing(m0, pairs@, self@);
        }
        other.extend(pairs);
    }

    /// A fresh container holding the union of `self` and every container
    /// in `others`, folded in list order. On a shared key, a container
    /// later in the list wins over earlier ones and over `self`. The
    /// inputs are left untouched.
    pub fn merge_all(&self, others: Vec<&DataCloud<K, V>>) -> (merged: DataCloud<K, V>) where
        K: Copy,
        V: Copy,

        requires
            obeys_key_model::<K>(),
            self.wf(),
        ensures
            merged@ == crate::model::union_fold(
                self@,
                others@.map_values(|c: &DataCloud<K, V>| c@),
            ),
            merged.wf(),
    {
        let ghost views = others@.map_values(|c: &DataCloud<K, V>| c@);
        let mut merged: DataCloud<K, V> = DataCloud::new();
        let own = self.snapshot_pairs();
        proof {
            crate::model::lemma_insert_pairs_listing(Map::<K, V>::empty(), own@, self@);
            assert(Map::<K, V>::empty().union_prefer_right(self@) =~= self@);
        }
        merged.extend(own);
        for cloud in it: others.into_iter()
            invariant
                obeys_key_model::<K>(),
                self.wf(),
                it.seq().map_values(|c: &DataCloud<K, V>| c@) == views,
                merged@ == crate::model::union_fold(self@, views.take(it.index())),
        {
            let pairs = cloud.snapshot_pairs();
            proof {
                assert(views[it.index()] == cloud@);
                crate::model::lemma_insert_pairs_listing(merged@, pairs@, cloud@);
                crate::model::lemma_union_fold_step(self@, views, it.index());
            }
            merged.extend(pairs);
        }
        proof {
            assert(views.take(views.len() as int) =~= views);
        }
        merged
    }

    /// Consumes the container and returns its entries as a double-ended
    /// queue of key/handle pairs, in arbitrary order with each key
    /// exactly once.
    pub fn into_vecdeque(self) -> (out: std::collections::VecDeque<(K, V)>) where K: Copy
        requires
            obeys_key_model::<K>(),
            self.wf(),
        ensures
            crate::model::lists_entries_of(out@, self@),
            crate::model::keys_of(out@).no_duplicates(),
            out@.len() == self@.len(),
            crate::model::map_of_pairs(out@) == self@,
    {
        let ghost m0 = self@;
        let pairs = self.into_vec();
        let ghost all = pairs@;
        let mut out: std::collections::VecDeque<(K, V)> = std::collections::VecDeque::new();
        for p in it: pairs.into_iter()
            invariant
                it.seq() == all,
                out@ == all.take(it.index()),
        {
            out.push_back(p);
        }
        proof {
            assert(all.take(all.len() as int) =~= all);
        }
        out
    }

    /// Consumes the container and hands its entries out through an
    /// iterator of key/handle pairs, in arbitrary order with each key
    /// exactly once.
    pub fn into_pairs(self) -> (it: crate::iter::IntoPairs<K, V>) where K: Copy
        requires
            obeys_key_model::<K>(),
            self.wf(),
        ensures
            crate::model::lists_entries_of(it@, self@),
            crate::model::keys_of(it@).no_duplicates(),
            it@.len() == self@.len(),
            crate::model::map_of_pairs(it@) == self@,
    {
        crate::iter::IntoPairs::new(self.into_vec())
    }

    /// Consumes the container and hands its entries out through a
    /// length-reporting iterator of key/handle pairs, in arbitrary order
    /// with each key exactly once.
    pub fn into_iter(self) -> (it: crate::iter::IntoIter<K, V>) where K: Copy
        requires
            obeys_key_model::<K>(),
            self.wf(),
        ensures
            crate::model::lists_entries_of(it@, self@),
            crate::model::keys_of(it@).no_duplicates(),
            it@.len() == self@.len(),
            crate::model::map_of_pairs(it@) == self@,
    {
        crate::iter::IntoIter::new(self.into_vec())
    }

    /// Hands out a snapshot of the entries as copied key/handle pairs,
    /// leaving the container untouched.
    pub fn iter(&self) -> (it: crate::iter::Iter<K, V>) where K: Copy, V: Copy
        requires
            obeys_key_model::<K>(),
            self.wf(),
        ensures
            crate::model::lists_entries_of(it@, self@),
            crate::model::keys_of(it@).no_duplicates(),
            it@.len() == self@.len(),
            crate::model::map_of_pairs(it@) == self@,
    {
        let pairs = self.snapshot_pairs();
        proof {
            crate::model::lemma_round_trip(pairs@, self@);
        }
        crate::iter::Iter::new(pairs)
    }

    /// Hands out a snapshot of the entries for callers that mean to
    /// mutate the referenced data. A handle is non-owning, so mutation
    /// goes through the handle at its owner; the container itself is
    /// left untouched.
    pub fn iter_mut(&self) -> (it: crate::iter::IterMut<K, V>) where K: Copy, V: Copy
        requires
            obeys_key_model::<K>(),
            self.wf(),
        ensures
            crate::model::lists_entries_of(it@, self@),
            crate::model::keys_of(it@).no_duplicates(),
            it@.len() == self@.len(),
            crate::model::map_of_pairs(it@) == self@,
    {
        let pairs = self.snapshot_pairs();
        proof {
            crate::model::lemma_round_trip(pairs@, self@);
        }
        crate::iter::IterMut::new(pairs)
    }

    /// Records several pairs at once, from front to back, and returns
    /// for each pair the handle its key replaced at that moment, or
    /// `None` if the key was new then.
    pub fn insert_all(&mut self, pairs: Vec<(K, V)>) -> (previous: Vec<Option<V>>)
        requires
            obeys_key_model::<K>(),
            old(self).wf(),
        ensures
            final (self)@ == crate::model::insert_pairs(old(self)@, pairs@),
            previous@.len() == pairs@.len(),
            forall|i: int|
                0 <= i < pairs@.len() ==> previous@[i] == crate::model::opt_get(
                    crate::model::insert_pairs(old(self)@, pairs@.take(i)),
                    pairs@[i].0,
                ),
    {
        let ghost all = pairs@;
        let ghost m0 = self@;
        let mut previous: Vec<Option<V>> = Vec::new();
        for p in it: pairs.into_iter()
            invariant
                obeys_key_model::<K>(),
                self.wf(),
                it.seq() == all,
                self@ == crate::model::insert_pairs(m0, all.take(it.index())),
                previous@.len() == it.index(),
                forall|i: int|
                    0 <= i < it.index() ==> previous@[i] == crate::model::opt_get(
                        crate::model::insert_pairs(m0, all.take(i)),
                        all[i].0,
                    ),
        {
            previous.push(self.insert(p.0, p.1));
            proof {
                crate::model::lemma_insert_pairs_step(m0, all, it.index());
            }
        }
        proof {
            assert(all.take(all.len() as int) =~= all);
        }
        previous
    }

    /// Looks several keys up at once. Returns, for each key in order,
    /// a copy of the recorded handle or `None`.
    pub fn get_all(&self, keys: Vec<&K>) -> (found: Vec<Option<V>>) where V: Copy
        requires
            obeys_key_model::<K>(),
            self.wf(),
        ensures
            found@.len() == keys@.len(),
            forall|i: int|
                0 <= i < keys@.len() ==> found@[i] == crate::model::opt_get(self@, *keys@[i]),
    {
        let ghost all = keys@;
        let mut found: Vec<Option<V>> = Vec::new();
        for k in it: keys.into_iter()
            invariant
                obeys_key_model::<K>(),
                self.wf(),
                it.seq() == all,
                found@.len() == it.index(),
                forall|i: int|
                    0 <= i < it.index() ==> found@[i] == crate::model::opt_get(self@, *all[i]),
        {
            let entry = match self.get(k) {
                Some(v) => Some(*v),
                None => None,
            };
            found.push(entry);
        }
        found
    }

    /// The handle recorded for `key`, which must be present: indexing a
    /// missing key is a caller bug, so this operation demands the key
    /// up front rather than failing at run time.
    pub fn index(&self, key: &K) -> (r: &V)
        requires
            obeys_key_model::<K>(),
            self.wf(),
            self@.contains_key(*key),
        ensures
            *r == self@[*key],
    {
        self.get(key).unwrap()
    }

    /// Records a handle supplied in raw, possibly-null form. A null
    /// reference is rejected with [`NullPointerError`] and nothing is
    /// recorded; a live handle is recorded exactly as `insert` records
    /// it, returning the handle previously stored under `key`.
    pub fn insert_from_raw(&mut self, key: K, value: RawRef<V>) -> (result: Result<
        Option<V>,
        crate::error::NullPointerError,
    >)
        requires
            obeys_key_model::<K>(),
            old(self).wf(),
        ensures
            value is Null ==> result is Err && final (self)@ == old(self)@,
            value matches RawRef::Ref(v) ==> final (self)@ == old(self)@.insert(key, v) && result
                == Ok::<Option<V>, crate::error::NullPointerError>(
                crate::model::opt_get(old(self)@, key),
            ),
    {
        match value {
            RawRef::Null => Err(
                crate::error::NullPointerError(
                    "Tried to insert null pointer in DataCloud".to_string(),
                ),
            ),
            RawRef::Ref(reference) => Ok(self.insert(key, reference)),
        }
    }

    /// The handle recorded for `key` in raw form, or `None` when the
    /// key is absent. A returned raw reference is never null.
    pub fn get_as_raw(&self, key_to_search_for: &K) -> (r: Option<RawRef<V>>) where V: Copy
        requires
            obeys_key_model::<K>(),
            self.wf(),
        ensures
            self@.contains_key(*key_to_search_for) ==> r == Some(
                RawRef::Ref(self@[*key_to_search_for]),
            ),
            !self@.contains_key(*key_to_search_for) ==> r is None,
    {
        match self.get(key_to_search_for) {
            Some(v) => Some(RawRef::Ref(*v)),
            None => None,
        }
    }

    /// Consumes the container and hands its entries out as raw
    /// key/handle pairs, in arbitrary order with each key exactly once.
    /// Every handle comes out live: the container never stores a null
    /// reference.
    pub fn into_raw_pairs(self) -> (it: crate::iter::IntoPairs<K, RawRef<V>>) where K: Copy
        requires
            obeys_key_model::<K>(),
            self.wf(),
        ensures
            it@.len() == self@.len(),
            forall|i: int|
                0 <= i < it@.len() ==> ((#[trigger] it@[i]).1 matches RawRef::Ref(v)
                    && self@.contains_pair(it@[i].0, v)),
            forall|k: K| #[trigger]
                self@.contains_key(k) ==> crate::model::keys_of(it@).contains(k),
            crate::model::keys_of(it@).no_duplicates(),
    {
        let ghost m0 = self@;
        let pairs = self.into_vec();
        let ghost all = pairs@;
        let mut raw: Vec<(K, RawRef<V>)> = Vec::new();
        for p in it: pairs.into_iter()
            invariant
                it.seq() == all,
                raw@.len() == it.index(),
                forall|i: int|
                    0 <= i < it.index() ==> raw@[i] == (all[i].0, RawRef::Ref(all[i].1)),
        {
            raw.push((p.0, RawRef::Ref(p.1)));
        }
        proof {
            assert(crate::model::keys_of(raw@) =~= crate::model::keys_of(all));
            assert forall|k: K| #[trigger]
                m0.contains_key(k) implies crate::model::keys_of(raw@).contains(k) by {
                assert(crate::model::keys_of(all).contains(k));
            }
        }
        crate::iter::IntoPairs::new(raw)
    }

    /// A mutable view of the handle recorded for `key`, or `None` when
    /// the key is absent. The view changes the recorded handle only;
    /// the data any handle stands for is mutated at its owner.
    pub fn get_mut(&mut self, key: K) -> (r: Option<&mut V>)
        requires
            obeys_key_model::<K>(),
            old(self).wf(),
        ensures
            old(self)@.contains_key(key) ==> r.is_some() && *r.unwrap() == old(self)@[key]
                && final (self)@ == old(self)@.insert(key, *final (r.unwrap())),
            !old(self)@.contains_key(key) ==> r.is_none() && final (self)@ == old(self)@,
    {
        proof {
            if !old(self)@.contains_key(key) {
                assert(old(self)@.remove(key) =~= old(self)@);
            }
        }
        match self.nodes.entry(key) {
            std::collections::hash_map::Entry::Occupied(entry) => Some(entry.into_mut()),
            std::collections::hash_map::Entry::Vacant(_) => None,
        }
    }

    /// Looks several keys up at once for mutation through the returned
    /// handles. A handle is non-owning, so the copies returned here give
    /// the same access as mutable views would: mutation goes through the
    /// handle at its owner.
    pub fn get_mut_all(&self, keys: Vec<&K>) -> (found: Vec<Option<V>>) where V: Copy
        requires
            obeys_key_model::<K>(),
            self.wf(),
        ensures
            found@.len() == keys@.len(),
            forall|i: int|
                0 <= i < keys@.len() ==> found@[i] == crate::model::opt_get(self@, *keys@[i]),
    {
        self.get_all(keys)
    }

    /// Whether some key maps to exactly this handle. A linear scan over
    /// the entries.
    pub fn contains_value(&self, value: &V) -> (r: bool) where K: Copy, V: Copy
        requires
            obeys_key_model::<K>(),
            self.wf(),
            crate::model::eq_is_structural::<V>(),
        ensures
            r == exists|k: K| #[trigger] self@.contains_key(k) && self@[k] == *value,
    {
        let pairs = self.snapshot_pairs();
        let ghost all = pairs@;
        let mut found = false;
        for p in it: pairs.into_iter()
            invariant
                crate::model::eq_is_structural::<V>(),
                it.seq() == all,
                found == exists|i: int| 0 <= i < it.index() && (#[trigger] all[i]).1 == *value,
        {
            if p.1 == *value {
                found = true;
            }
        }
        proof {
            if found {
                let i = choose|i: int| 0 <= i < all.len() && (#[trigger] all[i]).1 == *value;
                assert(self@.contains_pair(all[i].0, all[i].1));
            } else {
                if exists|k: K| #[trigger] self@.contains_key(k) && self@[k] == *value {
                    let k = choose|k: K| #[trigger] self@.contains_key(k) && self@[k] == *value;
                    let j = choose|j: int|
                        0 <= j < crate::model::keys_of(all).len() && crate::model::keys_of(all)[j]
                            == k;
                    assert(self@.contains_pair(all[j].0, all[j].1));
                }
            }
        }
        found
    }

    /// Keeps only the entries the predicate approves of, dropping every
    /// other entry from the table; the referenced values are untouched
    /// either way. An entry survives exactly when the predicate, given
    /// its key and handle, returned true for it.
    pub fn retain<F: Fn(&K, &V) -> bool>(&mut self, predicate: F) where K: Copy
        requires
            obeys_key_model::<K>(),
            old(self).wf(),
            forall|k: K, v: V|
                old(self)@.contains_pair(k, v) ==> #[trigger] predicate.requires((&k, &v)),
        ensures
            forall|k: K| #[trigger]
                final (self)@.contains_key(k) ==> old(self)@.contains_key(k) && final (self)@[k]
                    == old(self)@[k],
            forall|k: K| #[trigger]
                old(self)@.contains_key(k) && final (self)@.contains_key(k)
                    ==> predicate.ensures((&k, &old(self)@[k]), true),
            forall|k: K| #[trigger]
                old(self)@.contains_key(k) && !final (self)@.contains_key(k)
                    ==> predicate.ensures((&k, &old(self)@[k]), false),
    {
        let ghost m0 = self@;
        let keys = self.snapshot_keys();
        let ghost all = keys@;
        for k in it: keys.into_iter()
            invariant
                obeys_key_model::<K>(),
                self.wf(),
                it.seq() == all,
                all.no_duplicates(),
                all.to_set() == m0.dom(),
                forall|k2: K| #[trigger]
                    self@.contains_key(k2) ==> m0.contains_key(k2) && self@[k2] == m0[k2],
                forall|j: int| it.index() <= j < all.len() ==> self@.contains_key(#[trigger] all[j]),
                forall|k2: K, v: V| m0.contains_pair(k2, v) ==> #[trigger] predicate.requires(
                    (&k2, &v),
                ),
                forall|j: int|
                    0 <= j < it.index() && self@.contains_key(#[trigger] all[j])
                        ==> predicate.ensures((&all[j], &m0[all[j]]), true),
                forall|j: int|
                    0 <= j < it.index() && !self@.contains_key(#[trigger] all[j])
                        ==> predicate.ensures((&all[j], &m0[all[j]]), false),
        {
            let keep = match self.get(&k) {
                Some(v) => predicate(&k, v),
                None => true,
            };
            if !keep {
                self.remove(&k);
            }
            proof {
                assert forall|j: int|
                    it.index() + 1 <= j < all.len() implies self@.contains_key(
                    #[trigger] all[j],
                ) by {
                    assert(all[j] != all[it.index()]);
                }
            }
        }
        proof {
            assert forall|k2: K| #[trigger]
                m0.contains_key(k2) && self@.contains_key(k2) implies predicate.ensures(
                (&k2, &m0[k2]),
                true,
            ) by {
                assert(all.to_set().contains(k2));
                let j = choose|j: int| 0 <= j < all.len() && all[j] == k2;
                assert(self@.contains_key(all[j]));
            }
            assert forall|k2: K| #[trigger]
                m0.contains_key(k2) && !self@.contains_key(k2) implies predicate.ensures(
                (&k2, &m0[k2]),
                false,
            ) by {
                assert(all.to_set().contains(k2));
                let j = choose|j: int| 0 <= j < all.len() && all[j] == k2;
                assert(!self@.contains_key(all[j]));
            }
        }
    }

    /// Applies a caller-supplied transformation to every entry and
    /// hands the produced pairs out through an iterator. Each produced
    /// pair is the image of a distinct entry of the container; the
    /// container itself is untouched.
    pub fn map<F: Fn(&K, &V) -> (K, V)>(&self, f: F) -> (mapped: crate::iter::Mapped<K, V>) where
        K: Copy,
        V: Copy,

        requires
            obeys_key_model::<K>(),
            self.wf(),
            forall|k: K, v: V| self@.contains_pair(k, v) ==> #[trigger] f.requires((&k, &v)),
        ensures
            mapped@.len() == self@.len(),
            forall|i: int|
                0 <= i < mapped@.len() ==> crate::model::image_of_entry(
                    f,
                    self@,
                    #[trigger] mapped@[i],
                ),
    {
        let pairs = self.snapshot_pairs();
        let ghost all = pairs@;
        let mut out: Vec<(K, V)> = Vec::new();
        for p in it: pairs.into_iter()
            invariant
                it.seq() == all,
                crate::model::lists_entries_of(all, self@),
                forall|k: K, v: V| self@.contains_pair(k, v) ==> #[trigger] f.requires((&k, &v)),
                out@.len() == it.index(),
                forall|i: int|
                    0 <= i < it.index() ==> #[trigger] f.ensures((&all[i].0, &all[i].1), out@[i]),
        {
            proof {
                assert(p == all[it.index()]);
                assert(self@.contains_pair(all[it.index()].0, all[it.index()].1));
            }
            let image = f(&p.0, &p.1);
            out.push(image);
        }
        let mapped = crate::iter::Mapped::new(out);
        proof {
            assert forall|i: int|
                0 <= i < mapped@.len() implies crate::model::image_of_entry(
                f,
                self@,
                #[trigger] mapped@[i],
            ) by {
                assert(mapped@[i] == out@[i]);
                assert(self@.contains_pair(all[i].0, all[i].1));
                assert(f.ensures((&all[i].0, &all[i].1), mapped@[i]));
            }
        }
        mapped
    }

    /// The backing table itself, boxed behind a shared reference, for
    /// interop with code that wants to read the table directly.
    pub fn as_boxed_ref(&self) -> (boxed: Box<&HashMap<K, V, FxBuildHasher>>)
        ensures
            (**boxed)@ == self@,
    {
        Box::new(&self.nodes)
    }

    /// The defined equality of containers: whether both hold exactly
    /// the same keys, each mapped to the same handle, whatever order
    /// the two tables keep their entries in.
    pub fn equals(&self, other: &DataCloud<K, V>) -> (r: bool) where K: Copy, V: Copy
        requires
            obeys_key_model::<K>(),
            self.wf(),
            crate::model::eq_is_structural::<V>(),
        ensures
            r == (self@ == other@),
    {
        let own = self.snapshot_pairs();
        let ghost mine = own@;
        let mut fwd = true;
        for p in it: own.into_iter()
            invariant
                obeys_key_model::<K>(),
                self.wf(),
                crate::model::eq_is_structural::<V>(),
                it.seq() == mine,
                crate::model::lists_entries_of(mine, self@),
                fwd <==> (forall|j: int|
                    0 <= j < it.index() ==> other@.contains_key((#[trigger] mine[j]).0)
                        && other@[mine[j].0] == mine[j].1),
        {
            let matched = match other.get(&p.0) {
                Some(ov) => *ov == p.1,
                None => false,
            };
            if !matched {
                fwd = false;
            }
        }
        let theirs = other.snapshot_pairs();
        let ghost yours = theirs@;
        let mut bwd = true;
        for p in it: theirs.into_iter()
            invariant
                obeys_key_model::<K>(),
                self.wf(),
                it.seq() == yours,
                crate::model::lists_entries_of(yours, other@),
                bwd <==> (forall|j: int|
                    0 <= j < it.index() ==> self@.contains_key((#[trigger] yours[j]).0)),
        {
            if !self.contains_key(&p.0) {
                bwd = false;
            }
        }
        proof {
            if fwd && bwd {
                assert forall|k: K| #[trigger]
                    self@.contains_key(k) implies other@.contains_key(k) && other@[k]
                    == self@[k] by {
                    let j = choose|j: int|
                        0 <= j < crate::model::keys_of(mine).len() && crate::model::keys_of(
                            mine,
                        )[j] == k;
                    assert(self@.contains_pair(mine[j].0, mine[j].1));
                }
                assert forall|k: K| #[trigger]
                    other@.contains_key(k) implies self@.contains_key(k) by {
                    let j = choose|j: int|
                        0 <= j < crate::model::keys_of(yours).len() && crate::model::keys_of(
                            yours,
                        )[j] == k;
                    assert(other@.contains_pair(yours[j].0, yours[j].1));
                }
                assert(self@ =~= other@);
            } else if !fwd {
                let j = choose|j: int|
                    0 <= j < mine.len() && !(other@.contains_key((#[trigger] mine[j]).0)
                        && other@[mine[j].0] == mine[j].1);
                assert(self@.contains_pair(mine[j].0, mine[j].1));
                assert(self@[mine[j].0] == mine[j].1);
            } else {
                let j = choose|j: int|
                    0 <= j < yours.len() && !self@.contains_key((#[trigger] yours[j]).0);
                assert(other@.contains_pair(yours[j].0, yours[j].1));
            }
        }
        fwd && bwd
    }

    /// A mutable view of the handle recorded for `key`, which must be
    /// present: indexing a missing key is a caller bug, so this
    /// operation demands the key up front rather than failing at run
    /// time. The view changes the recorded handle only.
    pub fn index_mut(&mut self, key: K) -> (r: &mut V)
        requires
            obeys_key_model::<K>(),
            old(self).wf(),
            old(self)@.contains_key(key),
        ensures
            *r == old(self)@[key],
            final (self)@ == old(self)@.insert(key, *final (r)),
    {
        self.get_mut(key).unwrap()
    }

    /// The backing table itself, mutably, for interop with code that
    /// edits the table directly; the container's content afterwards is
    /// whatever the caller leaves in the table.
    pub fn as_table_mut(&mut self) -> (table: &mut HashMap<K, V, FxBuildHasher>)
        ensures
            (*table)@ == old(self)@,
            final (self)@ == (*final (table))@,
    {
        &mut self.nodes
    }

    /// Adopts an already-built fxhash table as a container, keeping its
    /// entries exactly.
    pub fn from_hashmap(hashmap: HashMap<K, V, FxBuildHasher>) -> (cloud: DataCloud<K, V>)
        ensures
            cloud@ == hashmap@,
            cloud.wf(),
    {
        // Start from a fresh container, whose constructor records the
        // hasher family's validity, then swap the caller's table in.
        let mut cloud: DataCloud<K, V> = DataCloud::new();
        cloud.nodes = hashmap;
        cloud
    }
}

impl<K: PartialEq + Eq + std::hash::Hash + Clone, V: PartialEq + Eq + Clone> Clone for DataCloud<
    K,
    V,
> {
    /// An independent container holding the same entries.
    fn clone(&self) -> (cloud: Self)
        ensures
            cloud@ == self@,
    {
        DataCloud { nodes: self.nodes.clone() }
    }
}

impl<K: PartialEq + Eq + std::hash::Hash, V: PartialEq + Eq> Default for DataCloud<K, V> {
    /// The empty container.
    fn default() -> (cloud: Self)
        ensures
            cloud@ == Map::<K, V>::empty(),
            cloud.wf(),
    {
        DataCloud::new()
    }
}

impl<
    K: PartialEq + Eq + std::hash::Hash + Copy,
    V: PartialEq + Eq + Copy,
> IntoOwned<K, V> for DataCloud<K, V> {
    /// The source must have a well-formed table and a key type the
    /// hash-table model covers.
    open spec fn owned_req(&self) -> bool {
        obeys_key_model::<K>() && self.wf()
    }

    /// The produced mapping holds exactly the source's entries.
    open spec fn owned_ens(&self, owned: HashMap<K, V>) -> bool {
        owned@ == self@
    }

    fn into_owned(&self) -> (owned: HashMap<K, V>) {
        let mut owned: HashMap<K, V> = HashMap::new();
        let pairs = self.snapshot_pairs();
        let ghost all = pairs@;
        for p in it: pairs.into_iter()
            invariant
                obeys_key_model::<K>(),
                self.wf(),
                it.seq() == all,
                owned@ == crate::model::insert_pairs(Map::<K, V>::empty(), all.take(it.index())),
        {
            owned.insert(p.0, p.1);
            proof {
                crate::model::lemma_insert_pairs_step(Map::<K, V>::empty(), all, it.index());
            }
        }
        proof {
            assert(all.take(all.len() as int) =~= all);
            crate::model::lemma_insert_pairs_listing(Map::<K, V>::empty(), all, self@);
            assert(Map::<K, V>::empty().union_prefer_right(self@) =~= self@);
        }
        owned
    }
}

impl<
    K: PartialEq + Eq + std::hash::Hash + Copy,
    V: PartialEq + Eq + Copy,
> CombineWith for DataCloud<K, V> {
    /// The receiver must have a well-formed table and a key type the
    /// hash-table model covers.
    open spec fn combine_req(&self, others: Seq<Self>) -> bool {
        obeys_key_model::<K>() && self.wf()
    }

    /// The combined container folds the list in order and then lets the
    /// receiver's entries win over anything from the list.
    open spec fn combine_ens(&self, others: Seq<Self>, combined: Self) -> bool {
        combined@ == crate::model::union_fold(
            Map::<K, V>::empty(),
            others.map_values(|c: DataCloud<K, V>| c@),
        ).union_prefer_right(self@)
    }

    fn combine_with(&self, others: Vec<Self>) -> (combined: Self) {
        let ghost views = others@.map_values(|c: DataCloud<K, V>| c@);
        let mut combined: DataCloud<K, V> = DataCloud::new();
        for cloud in it: others.into_iter()
            invariant
                obeys_key_model::<K>(),
                self.wf(),
                it.seq().map_values(|c: DataCloud<K, V>| c@) == views,
                combined@ == crate::model::union_fold(Map::<K, V>::empty(), views.take(it.index())),
        {
            let pairs = cloud.into_vec();
            proof {
                assert(views[it.index()] == cloud@);
                crate::model::lemma_insert_pairs_listing(combined@, pairs@, cloud@);
                crate::model::lemma_union_fold_step(Map::<K, V>::empty(), views, it.index());
            }
            combined.extend(pairs);
        }
        let own = self.snapshot_pairs();
        proof {
            assert(views.take(views.len() as int) =~= views);
            crate::model::lemma_insert_pairs_listing(combined@, own@, self@);
        }
        combined.extend(own);
        combined
    }
}

} // verus!
