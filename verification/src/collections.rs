//! Pass-local accumulators of the sync engine: a set of transaction
//! identifiers and a last-write-wins map keyed by transaction identifier.
//!
//! Both are plain vectors with a no-duplicate invariant, so that iteration
//! order is deterministic and fully specified.

use vstd::prelude::*;
use vstd::pervasive::VecAdditionalExecFns;

use crate::types::Txid;

verus! {

/// The map described by a run of `(key, value)` writes: a later write of a
/// key overwrites an earlier one.
pub open spec fn map_of<V>(entries: Seq<(Txid, V)>) -> Map<Txid, V>
    decreases entries.len(),
{
    if entries.len() == 0 {
        Map::empty()
    } else {
        map_of(entries.drop_last()).insert(entries.last().0, entries.last().1)
    }
}

/// A key is bound by `map_of` exactly when some entry writes it.
pub proof fn lemma_map_of_dom<V>(entries: Seq<(Txid, V)>, k: Txid)
    ensures
        map_of(entries).dom().contains(k) <==> exists|i: int|
            0 <= i < entries.len() && (#[trigger] entries[i]).0 == k,
    decreases entries.len(),
{
    if entries.len() > 0 {
        lemma_map_of_dom(entries.drop_last(), k);
        if entries.last().0 == k {
            assert(entries[entries.len() - 1].0 == k);
        } else {
            if map_of(entries).dom().contains(k) {
                let i = choose|i: int|
                    0 <= i < entries.drop_last().len() && (#[trigger] entries.drop_last()[i]).0 == k;
                assert(entries[i].0 == k);
            }
            if exists|i: int| 0 <= i < entries.len() && (#[trigger] entries[i]).0 == k {
                let i = choose|i: int| 0 <= i < entries.len() && (#[trigger] entries[i]).0 == k;
                assert(entries.drop_last()[i].0 == k);
            }
        }
    }
}

/// A bound key has an entry carrying exactly the map's value for it.
pub proof fn lemma_map_of_pair<V>(entries: Seq<(Txid, V)>, k: Txid)
    requires
        map_of(entries).dom().contains(k),
    ensures
        exists|i: int|
            0 <= i < entries.len() && #[trigger] entries[i] == (k, map_of(entries)[k]),
    decreases entries.len(),
{
    if entries.len() > 0 {
        if entries.last().0 == k {
            assert(entries[entries.len() - 1] == (k, map_of(entries)[k]));
        } else {
            lemma_map_of_pair(entries.drop_last(), k);
            let i = choose|i: int|
                0 <= i < entries.drop_last().len() && #[trigger] entries.drop_last()[i] == (
                k,
                map_of(entries.drop_last())[k],
                );
            assert(entries[i] == (k, map_of(entries)[k]));
        }
    }
}

/// If position `i` is the last write of its key, it gives the key's value.
pub proof fn lemma_map_of_at<V>(entries: Seq<(Txid, V)>, i: int)
    requires
        0 <= i < entries.len(),
        forall|j: int| i < j < entries.len() ==> (#[trigger] entries[j]).0 != entries[i].0,
    ensures
        map_of(entries).dom().contains(entries[i].0),
        map_of(entries)[entries[i].0] == entries[i].1,
    decreases entries.len(),
{
    if i == entries.len() - 1 {
    } else {
        assert(entries.drop_last()[i] == entries[i]);
        lemma_map_of_at(entries.drop_last(), i);
        assert(entries[entries.len() - 1].0 != entries[i].0);
    }
}

/// Overwriting the value at the unique position of key `k` updates the map
/// at `k` and nothing else.
pub proof fn lemma_map_of_update<V>(entries: Seq<(Txid, V)>, i: int, v: V)
    requires
        0 <= i < entries.len(),
        forall|j: int| i < j < entries.len() ==> (#[trigger] entries[j]).0 != entries[i].0,
    ensures
        map_of(entries.update(i, (entries[i].0, v))) == map_of(entries).insert(entries[i].0, v),
    decreases entries.len(),
{
    let k = entries[i].0;
    let updated = entries.update(i, (k, v));
    if i == entries.len() - 1 {
        assert(updated.drop_last() =~= entries.drop_last());
        assert(map_of(updated) =~= map_of(entries).insert(k, v));
    } else {
        assert(entries.drop_last()[i] == entries[i]);
        lemma_map_of_update(entries.drop_last(), i, v);
        assert(updated.drop_last() =~= entries.drop_last().update(i, (k, v)));
        assert(updated.last() == entries.last());
        assert(entries[entries.len() - 1].0 != k);
        assert(map_of(updated) =~= map_of(entries).insert(k, v));
    }
}

/// A set of transaction identifiers that remembers insertion order.
pub struct TxidSet {
    ids: Vec<Txid>,
}

impl View for TxidSet {
    type V = Set<Txid>;

    open spec fn view(&self) -> Set<Txid> {
        self.order().to_set()
    }
}

impl TxidSet {
    /// The identifiers in insertion order, each exactly once.
    pub closed spec fn order(&self) -> Seq<Txid> {
        self.ids@
    }

    #[verifier::type_invariant]
    spec fn no_dup(&self) -> bool {
        forall|i: int, j: int| 0 <= i < j < self.ids@.len() ==> self.ids@[i] != self.ids@[j]
    }

    pub fn new() -> (r: TxidSet)
        ensures
            r.order() == Seq::<Txid>::empty(),
            r@ == Set::<Txid>::empty(),
    {
        let r = TxidSet { ids: Vec::new() };
        proof {
            assert(r.order().to_set() =~= Set::<Txid>::empty());
        }
        r
    }

    pub fn len(&self) -> (r: usize)
        ensures
            r == self.order().len(),
    {
        self.ids.len()
    }

    pub fn get(&self, i: usize) -> (r: Txid)
        requires
            i < self.order().len(),
        ensures
            r == self.order()[i as int],
            self@.contains(r),
            forall|j: int| 0 <= j < self.order().len() && j != i ==> self.order()[j] != r,
    {
        proof {
            use_type_invariant(&*self);
            assert(self.order().contains(self.order()[i as int]));
        }
        self.ids[i]
    }

    pub fn contains(&self, id: Txid) -> (r: bool)
        ensures
            r == self@.contains(id),
    {
        let mut i: usize = 0;
        while i < self.ids.len()
            invariant
                i <= self.ids@.len(),
                forall|j: int| 0 <= j < i ==> self.ids@[j] != id,
            decreases self.ids@.len() - i,
        {
            if self.ids[i] == id {
                proof {
                    assert(self.order().contains(id));
                }
                return true;
            }
            i += 1;
        }
        proof {
            assert(!self.order().contains(id));
        }
        false
    }

    /// Adds `id` if it is not yet present; the order of the others is kept.
    pub fn insert(&mut self, id: Txid)
        ensures
            final(self)@ == old(self)@.insert(id),
            final(self).order() == if old(self)@.contains(id) {
                old(self).order()
            } else {
                old(self).order().push(id)
            },
    {
        proof {
            use_type_invariant(&*self);
        }
        if !self.contains(id) {
            let mut ids: Vec<Txid> = Vec::new();
            core::mem::swap(&mut ids, &mut self.ids);
            ids.push(id);
            core::mem::swap(&mut ids, &mut self.ids);
            proof {
                assert(self.order().drop_last() =~= old(self).order());
                assert(self.order()[self.order().len() - 1] == id);
                assert(self.order().contains(id));
                assert forall|x: Txid| self.order().contains(x)
                    implies old(self).order().to_set().insert(id).contains(x) by {
                    if x != id {
                        let j = choose|j: int|
                            0 <= j < self.order().len() && self.order()[j] == x;
                        assert(old(self).order()[j] == x);
                        assert(old(self).order().contains(x));
                    }
                }
                assert forall|x: Txid| old(self).order().to_set().insert(id).contains(x)
                    implies self.order().contains(x) by {
                    if x != id {
                        let j = choose|j: int|
                            0 <= j < old(self).order().len() && old(self).order()[j] == x;
                        assert(self.order()[j] == x);
                    }
                }
                assert(final(self)@ =~= old(self)@.insert(id));
            }
        } else {
            proof {
                assert(final(self)@ =~= old(self)@.insert(id));
            }
        }
    }
}

/// A map from transaction identifier to `V` where a later insert of the same
/// key overwrites the earlier one.
pub struct IdMap<V> {
    entries: Vec<(Txid, V)>,
}

impl<V> View for IdMap<V> {
    type V = Map<Txid, V>;

    open spec fn view(&self) -> Map<Txid, V> {
        map_of(self.pairs())
    }
}

impl<V> IdMap<V> {
    /// The entries in insertion order, one per key.
    pub closed spec fn pairs(&self) -> Seq<(Txid, V)> {
        self.entries@
    }

    #[verifier::type_invariant]
    spec fn no_dup_keys(&self) -> bool {
        forall|i: int, j: int|
            0 <= i < j < self.entries@.len()
                ==> (#[trigger] self.entries@[i]).0 != (#[trigger] self.entries@[j]).0
    }

    pub fn new() -> (r: IdMap<V>)
        ensures
            r.pairs() == Seq::<(Txid, V)>::empty(),
            r@ == Map::<Txid, V>::empty(),
    {
        IdMap { entries: Vec::new() }
    }

    pub fn len(&self) -> (r: usize)
        ensures
            r == self.pairs().len(),
    {
        self.entries.len()
    }

    pub fn contains_key(&self, k: Txid) -> (r: bool)
        ensures
            r == self@.dom().contains(k),
    {
        proof {
            lemma_map_of_dom(self.pairs(), k);
        }
        let mut i: usize = 0;
        while i < self.entries.len()
            invariant
                i <= self.entries@.len(),
                forall|j: int| 0 <= j < i ==> (#[trigger] self.entries@[j]).0 != k,
            decreases self.entries@.len() - i,
        {
            if self.entries[i].0 == k {
                proof {
                    assert((self.pairs()[i as int]).0 == k);
                    assert(exists|j: int|
                        0 <= j < self.pairs().len() && (#[trigger] self.pairs()[j]).0 == k);
                    lemma_map_of_dom(self.pairs(), k);
                    assert(self@.dom().contains(k));
                }
                return true;
            }
            i += 1;
        }
        false
    }
}

impl<V: Copy> IdMap<V> {
    pub fn key_at(&self, i: usize) -> (r: Txid)
        requires
            i < self.pairs().len(),
        ensures
            r == self.pairs()[i as int].0,
            self@.contains_pair(r, self.pairs()[i as int].1),
    {
        proof {
            use_type_invariant(&*self);
            lemma_map_of_at(self.pairs(), i as int);
        }
        self.entries[i].0
    }

    pub fn value_at(&self, i: usize) -> (r: V)
        requires
            i < self.pairs().len(),
        ensures
            r == self.pairs()[i as int].1,
            self@.contains_pair(self.pairs()[i as int].0, r),
    {
        proof {
            use_type_invariant(&*self);
            lemma_map_of_at(self.pairs(), i as int);
        }
        self.entries[i].1
    }

    pub fn get(&self, k: Txid) -> (r: Option<V>)
        ensures
            r == if self@.dom().contains(k) {
                Some(self@[k])
            } else {
                None::<V>
            },
    {
        proof {
            use_type_invariant(&*self);
            lemma_map_of_dom(self.pairs(), k);
        }
        let mut i: usize = 0;
        while i < self.entries.len()
            invariant
                i <= self.entries@.len(),
                forall|j: int| 0 <= j < i ==> (#[trigger] self.entries@[j]).0 != k,
            decreases self.entries@.len() - i,
        {
            if self.entries[i].0 == k {
                proof {
                    use_type_invariant(&*self);
                    lemma_map_of_at(self.pairs(), i as int);
                }
                return Some(self.entries[i].1);
            }
            i += 1;
        }
        None
    }

    /// Inserts or overwrites the value under `k`.
    pub fn insert(&mut self, k: Txid, v: V)
        ensures
            final(self)@ == old(self)@.insert(k, v),
    {
        proof {
            use_type_invariant(&*self);
        }
        let mut i: usize = 0;
        while i < self.entries.len()
            invariant
                i <= self.entries@.len(),
                *self == *old(self),
                forall|j: int| 0 <= j < i ==> (#[trigger] self.entries@[j]).0 != k,
            decreases self.entries@.len() - i,
        {
            if self.entries[i].0 == k {
                proof {
                    use_type_invariant(&*self);
                }
                let mut entries: Vec<(Txid, V)> = Vec::new();
                core::mem::swap(&mut entries, &mut self.entries);
                entries.set(i, (k, v));
                core::mem::swap(&mut entries, &mut self.entries);
                proof {
                    lemma_map_of_update(old(self).pairs(), i as int, v);
                }
                return;
            }
            i += 1;
        }
        let mut entries: Vec<(Txid, V)> = Vec::new();
        core::mem::swap(&mut entries, &mut self.entries);
        entries.push((k, v));
        core::mem::swap(&mut entries, &mut self.entries);
        proof {
            assert(self.pairs().drop_last() =~= old(self).pairs());
        }
    }
}

} // verus!
