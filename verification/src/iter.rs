use vstd::prelude::*;

verus! {

// Each adapter wraps a snapshot of a container's entries, taken when the
// adapter was built, and hands the entries out one at a time by removing
// them from the tail of the snapshot. So the produced order is the reverse
// of the snapshot order, each adapter is finite, and it exhausts exactly
// once. The snapshot order itself is arbitrary: the container promises
// nothing about the order of its entries.

/// Hands out the key/handle pairs of a consumed container.
pub struct IntoPairs<K, V> {
    pairs: Vec<(K, V)>,
}

impl<K, V> View for IntoPairs<K, V> {
    type V = Seq<(K, V)>;

    closed spec fn view(&self) -> Seq<(K, V)> {
        self.pairs@
    }
}

impl<K, V> IntoPairs<K, V> {
    /// Wraps an already materialized snapshot of pairs.
    pub fn new(pairs: Vec<(K, V)>) -> (it: IntoPairs<K, V>)
        ensures
            it@ == pairs@,
    {
        IntoPairs { pairs }
    }

    /// The next pair: the last of the remaining snapshot, or `None` once
    /// the snapshot is exhausted.
    pub fn next(&mut self) -> (r: Option<(K, V)>)
        ensures
            old(self)@.len() == 0 ==> r is None && final(self)@ == old(self)@,
            old(self)@.len() > 0 ==> r == Some(old(self)@.last()) && final(self)@ == old(
                self,
            )@.drop_last(),
    {
        self.pairs.pop()
    }
}

/// Hands out the key/handle pairs of a consumed container, and also
/// reports how many pairs are left.
pub struct IntoIter<K, V> {
    pairs: Vec<(K, V)>,
}

impl<K, V> View for IntoIter<K, V> {
    type V = Seq<(K, V)>;

    closed spec fn view(&self) -> Seq<(K, V)> {
        self.pairs@
    }
}

impl<K, V> IntoIter<K, V> {
    /// Wraps an already materialized snapshot of pairs.
    pub fn new(pairs: Vec<(K, V)>) -> (it: IntoIter<K, V>)
        ensures
            it@ == pairs@,
    {
        IntoIter { pairs }
    }

    /// The next pair: the last of the remaining snapshot, or `None` once
    /// the snapshot is exhausted.
    pub fn next(&mut self) -> (r: Option<(K, V)>)
        ensures
            old(self)@.len() == 0 ==> r is None && final(self)@ == old(self)@,
            old(self)@.len() > 0 ==> r == Some(old(self)@.last()) && final(self)@ == old(
                self,
            )@.drop_last(),
    {
        self.pairs.pop()
    }

    /// How many pairs are still to come.
    pub fn len(&self) -> (n: usize)
        ensures
            n == self@.len(),
    {
        self.pairs.len()
    }
}

/// Hands out pairs produced by applying a caller-supplied function to
/// every entry of a container.
pub struct Mapped<K, V> {
    pairs: Vec<(K, V)>,
}

impl<K, V> View for Mapped<K, V> {
    type V = Seq<(K, V)>;

    closed spec fn view(&self) -> Seq<(K, V)> {
        self.pairs@
    }
}

impl<K, V> Mapped<K, V> {
    /// Wraps an already materialized snapshot of transformed pairs.
    pub fn new(pairs: Vec<(K, V)>) -> (it: Mapped<K, V>)
        ensures
            it@ == pairs@,
    {
        Mapped { pairs }
    }

    /// The next pair: the last of the remaining snapshot, or `None` once
    /// the snapshot is exhausted.
    pub fn next(&mut self) -> (r: Option<(K, V)>)
        ensures
            old(self)@.len() == 0 ==> r is None && final(self)@ == old(self)@,
            old(self)@.len() > 0 ==> r == Some(old(self)@.last()) && final(self)@ == old(
                self,
            )@.drop_last(),
    {
        self.pairs.pop()
    }

    /// How many pairs are still to come.
    pub fn len(&self) -> (n: usize)
        ensures
            n == self@.len(),
    {
        self.pairs.len()
    }
}

/// Hands out the entries of a container that stays alive, as copies of
/// its keys and handles.
pub struct Iter<K, V> {
    pairs: Vec<(K, V)>,
}

impl<K, V> View for Iter<K, V> {
    type V = Seq<(K, V)>;

    closed spec fn view(&self) -> Seq<(K, V)> {
        self.pairs@
    }
}

impl<K, V> Iter<K, V> {
    /// Wraps an already materialized snapshot of pairs.
    pub fn new(pairs: Vec<(K, V)>) -> (it: Iter<K, V>)
        ensures
            it@ == pairs@,
    {
        Iter { pairs }
    }

    /// The next pair: the last of the remaining snapshot, or `None` once
    /// the snapshot is exhausted.
    pub fn next(&mut self) -> (r: Option<(K, V)>)
        ensures
            old(self)@.len() == 0 ==> r is None && final(self)@ == old(self)@,
            old(self)@.len() > 0 ==> r == Some(old(self)@.last()) && final(self)@ == old(
                self,
            )@.drop_last(),
    {
        self.pairs.pop()
    }

    /// How many pairs are still to come.
    pub fn len(&self) -> (n: usize)
        ensures
            n == self@.len(),
    {
        self.pairs.len()
    }
}

/// Hands out the entries of a container that stays alive, for callers
/// that mean to mutate the referenced data. A handle is non-owning, so
/// mutation goes through the handle at its owner, and the pairs come out
/// exactly as `Iter` hands them out.
pub struct IterMut<K, V> {
    pairs: Vec<(K, V)>,
}

impl<K, V> View for IterMut<K, V> {
    type V = Seq<(K, V)>;

    closed spec fn view(&self) -> Seq<(K, V)> {
        self.pairs@
    }
}

impl<K, V> IterMut<K, V> {
    /// Wraps an already materialized snapshot of pairs.
    pub fn new(pairs: Vec<(K, V)>) -> (it: IterMut<K, V>)
        ensures
            it@ == pairs@,
    {
        IterMut { pairs }
    }

    /// The next pair: the last of the remaining snapshot, or `None` once
    /// the snapshot is exhausted.
    pub fn next(&mut self) -> (r: Option<(K, V)>)
        ensures
            old(self)@.len() == 0 ==> r is None && final(self)@ == old(self)@,
            old(self)@.len() > 0 ==> r == Some(old(self)@.last()) && final(self)@ == old(
                self,
            )@.drop_last(),
    {
        self.pairs.pop()
    }

    /// How many pairs are still to come.
    pub fn len(&self) -> (n: usize)
        ensures
            n == self@.len(),
    {
        self.pairs.len()
    }
}

} // verus!
