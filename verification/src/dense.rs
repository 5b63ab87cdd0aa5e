//! A stable-handle container over a compacting array.
//!
//! Logical ids stay valid while their element is live, however many other
//! elements are removed. Physically the elements sit in one dense array:
//! removing an element moves the last element into the freed slot, so the
//! array holds exactly the live elements at all times. Freed logical ids are
//! reused by later pushes, oldest first, before the id space grows.

use vstd::prelude::*;

verus! {

use vstd::pervasive::VecAdditionalExecFns;

/// Stable-handle container: `push` hands out a logical id that stays valid
/// until `remove`, while the backing array stays dense.
pub struct DenseVec<T> {
    /// Logical id to physical slot, `None` while the id is free.
    forward: Vec<Option<usize>>,
    /// Physical slot back to the logical id that owns it.
    reverse: Vec<usize>,
    /// The elements, in physical-slot order.
    raw: Vec<T>,
    /// Released logical ids, reused in first-freed order.
    free: std::collections::VecDeque<usize>,
}

impl<T> View for DenseVec<T> {
    type V = Map<usize, T>;

    /// The container denotes a finite map from live logical ids to elements.
    closed spec fn view(&self) -> Map<usize, T> {
        Map::new(
            |i: usize| self.live(i),
            |i: usize| self.raw@[self.forward@[i as int]->0 as int],
        )
    }
}

impl<T> DenseVec<T> {
    /// Whether logical id `i` currently holds an element.
    pub closed spec fn live(&self, i: usize) -> bool {
        i < self.forward@.len() && self.forward@[i as int] is Some
    }

    /// Number of live elements.
    pub closed spec fn len_spec(&self) -> nat {
        self.raw@.len()
    }

    /// Ids in physical-slot order, as iteration sees them.
    pub closed spec fn keys_spec(&self) -> Seq<usize> {
        self.reverse@
    }

    /// Elements in physical-slot order, as iteration sees them.
    pub closed spec fn values_spec(&self) -> Seq<T> {
        self.raw@
    }

    /// The logical id the next `push` will hand out.
    pub closed spec fn next_id(&self) -> usize {
        if self.free@.len() > 0 {
            self.free@[0]
        } else {
            self.forward@.len() as usize
        }
    }

    /// Internal consistency: the three arrays and the free list describe one
    /// another exactly.
    pub closed spec fn wf(&self) -> bool {
        &&& self.forward@.len() <= usize::MAX
        &&& self.free@.len() <= usize::MAX
        &&& self.raw@.len() <= usize::MAX
        &&& self.reverse@.len() == self.raw@.len()
        &&& forall|s: int|
            0 <= s < self.reverse@.len() ==> {
                &&& (#[trigger] self.reverse@[s]) < self.forward@.len()
                &&& self.forward@[self.reverse@[s] as int] == Some(s as usize)
            }
        &&& forall|i: int|
            0 <= i < self.forward@.len() && (#[trigger] self.forward@[i]) is Some ==> {
                &&& self.forward@[i]->0 < self.raw@.len()
                &&& self.reverse@[self.forward@[i]->0 as int] == i as usize
            }
        &&& forall|j: int|
            0 <= j < self.free@.len() ==> {
                &&& (#[trigger] self.free@[j]) < self.forward@.len()
                &&& self.forward@[self.free@[j] as int] is None
            }
        &&& forall|j: int, l: int|
            0 <= j < l < self.free@.len() ==> self.free@[j] != self.free@[l]
        &&& forall|i: int|
            0 <= i < self.forward@.len() && (#[trigger] self.forward@[i]) is None
                ==> self.free@.contains(i as usize)
    }

    /// Creates an empty container.
    pub fn new() -> (r: Self)
        ensures
            r.wf(),
            r@ == Map::<usize, T>::empty(),
            forall|j: usize| !r.live(j),
            r.keys_spec() == Seq::<usize>::empty(),
            r.values_spec() == Seq::<T>::empty(),
            r.len_spec() == 0,
            r.next_id() == 0,
    {
        let r = DenseVec {
            forward: Vec::new(),
            reverse: Vec::new(),
            raw: Vec::new(),
            free: std::collections::VecDeque::new(),
        };
        proof {
            assert(r@ =~= Map::<usize, T>::empty());
        }
        r
    }

    /// Creates an empty container with room reserved for `capacity` elements.
    pub fn with_capacity(capacity: usize) -> (r: Self)
        ensures
            r.wf(),
            r@ == Map::<usize, T>::empty(),
            forall|j: usize| !r.live(j),
            r.keys_spec() == Seq::<usize>::empty(),
            r.values_spec() == Seq::<T>::empty(),
            r.len_spec() == 0,
            r.next_id() == 0,
    {
        let r = DenseVec {
            forward: Vec::with_capacity(capacity),
            reverse: Vec::with_capacity(capacity),
            raw: Vec::with_capacity(capacity),
            free: std::collections::VecDeque::new(),
        };
        proof {
            assert(r@ =~= Map::<usize, T>::empty());
        }
        r
    }

    /// Stores `elem` and hands out a stable logical id for it. The id was not
    /// live before the call; freed ids are reused, oldest first, before the
    /// id space grows.
    pub fn push(&mut self, elem: T) -> (id: usize)
        requires
            old(self).wf(),
        ensures
            final(self).wf(),
            id == old(self).next_id(),
            !old(self).live(id),
            final(self).live(id),
            forall|j: usize| final(self).live(j) <==> old(self).live(j) || j == id,
            final(self)@ == old(self)@.insert(id, elem),
            final(self).len_spec() == old(self).len_spec() + 1,
            final(self).keys_spec() == old(self).keys_spec().push(id),
            final(self).values_spec() == old(self).values_spec().push(elem),
    {
        let id: usize = match self.free.pop_front() {
            Some(i) => i,
            None => {
                let i: usize = self.forward.len();
                self.forward.push(None);
                i
            },
        };
        // reading the length back bounds it for the proofs below
        let n: usize = self.forward.len();
        assert(self.forward@.len() == n);
        let slot: usize = self.raw.len();
        self.raw.push(elem);
        self.reverse.push(id);
        let m: usize = self.raw.len();
        assert(self.raw@.len() == m);
        self.forward.set(id, Some(slot));
        proof {
            assert(self.forward@[id as int] == Some(slot));
            assert forall|i: int|
                0 <= i < self.forward@.len() && (#[trigger] self.forward@[i]) is None
                    implies self.free@.contains(i as usize) by {
                assert(i != id);
                assert(i < old(self).forward@.len());
                assert(old(self).forward@[i] is None);
                assert(old(self).free@.contains(i as usize));
                if old(self).free@.len() > 0 {
                    let j = choose|j: int|
                        0 <= j < old(self).free@.len() && old(self).free@[j] == i as usize;
                    assert(old(self).free@[0] == id);
                    assert(j != 0);
                    assert(self.free@[j - 1] == i as usize);
                }
            }
            assert(self@ =~= old(self)@.insert(id, elem));
        }
        id
    }

    /// Removes the element at `id`, returning it; yields nothing when `id` is
    /// not live. The freed id is only handed out again by later pushes.
    pub fn remove(&mut self, id: usize) -> (r: Option<T>)
        requires
            old(self).wf(),
        ensures
            final(self).wf(),
            match r {
                Some(v) => {
                    &&& old(self).live(id)
                    &&& v == old(self)@[id]
                    &&& forall|j: usize| final(self).live(j) <==> old(self).live(j) && j != id
                    &&& final(self)@ == old(self)@.remove(id)
                    &&& final(self).len_spec() == old(self).len_spec() - 1
                },
                None => {
                    &&& !old(self).live(id)
                    &&& *final(self) == *old(self)
                },
            },
    {
        if id >= self.forward.len() {
            return None;
        }
        let slot: usize = match self.forward[id] {
            Some(s) => s,
            None => {
                return None;
            },
        };
        self.forward.set(id, None);
        self.free.push_back(id);
        let n: usize = self.free.len();
        assert(self.free@.len() == n);
        proof {
            assert forall|i: int|
                0 <= i < self.forward@.len() && (#[trigger] self.forward@[i]) is Some
                    implies self.forward@[i]->0 != slot && self.forward@[i]->0
                    < self.raw@.len() && self.reverse@[self.forward@[i]->0 as int]
                    == i as usize by {
                assert(i != id);
                assert(old(self).forward@[i] is Some);
                if self.forward@[i]->0 == slot {
                    assert(old(self).reverse@[slot as int] == i as usize);
                    assert(old(self).reverse@[slot as int] == id);
                }
            }
            assert forall|s: int|
                0 <= s < self.reverse@.len() && s != slot implies (
                #[trigger] self.reverse@[s]) < self.forward@.len()
                    && self.forward@[self.reverse@[s] as int] == Some(s as usize) by {
                assert(old(self).forward@[old(self).reverse@[s] as int] == Some(s as usize));
                if self.reverse@[s] == id {
                    assert(old(self).forward@[id as int] == Some(slot));
                }
            }
        }
        let r = self.realloc(slot);
        proof {
            let pre = *old(self);
            let lasti = pre.raw@.len() - 1;
            let lastu = lasti as usize;
            let owner = pre.reverse@[lasti];
            let newlen = self.raw@.len();
            assert(newlen == lasti);
            assert(pre.forward@[owner as int] == Some(lastu));
            assert(pre.forward@[id as int] == Some(slot));
            assert(pre.reverse@[slot as int] == id);
            // the freed id was not already on the free list
            assert forall|j: int| 0 <= j < pre.free@.len() implies pre.free@[j] != id by {
                if pre.free@[j] == id {
                    assert(pre.forward@[id as int] is None);
                }
            }
            // slot-to-id agreement in the new state
            assert forall|s: int|
                0 <= s < self.reverse@.len() implies (#[trigger] self.reverse@[s])
                    < self.forward@.len() && self.forward@[self.reverse@[s] as int] == Some(
                s as usize,
            ) by {
                if s == slot {
                    assert(self.reverse@[s] == owner);
                    assert(owner != id);
                    assert(self.forward@[owner as int] == Some(slot));
                } else {
                    let j = pre.reverse@[s];
                    assert(self.reverse@[s] == j);
                    assert(pre.forward@[j as int] == Some(s as usize));
                    assert(j != id);
                    assert(s != lasti);
                    assert(self.forward@[j as int] == Some(s as usize));
                }
            }
            // id-to-slot agreement in the new state
            assert forall|i: int|
                0 <= i < self.forward@.len() && (#[trigger] self.forward@[i]) is Some
                    implies self.forward@[i]->0 < self.raw@.len()
                    && self.reverse@[self.forward@[i]->0 as int] == i as usize by {
                assert(i != id);
                assert(pre.forward@[i] is Some);
                if pre.forward@[i] == Some(lastu) {
                    assert(pre.reverse@[lasti] == i as usize);
                    assert(i == owner);
                    assert(self.forward@[i] == Some(slot));
                    assert(slot != lastu);
                    assert(self.reverse@[slot as int] == owner);
                } else {
                    assert(self.forward@[i] == pre.forward@[i]);
                    let s: usize = pre.forward@[i]->0;
                    assert(pre.reverse@[s as int] == i as usize);
                    assert(s != slot);
                    assert(s != lastu);
                    assert(self.reverse@[s as int] == pre.reverse@[s as int]);
                }
            }
            // free-list completeness for the new state
            assert forall|i: int|
                0 <= i < self.forward@.len() && (#[trigger] self.forward@[i]) is None
                    implies self.free@.contains(i as usize) by {
                if i == id {
                    assert(self.free@[self.free@.len() - 1] == id);
                } else {
                    assert(pre.forward@[i] is None);
                    assert(pre.free@.contains(i as usize));
                    let j = choose|j: int|
                        0 <= j < pre.free@.len() && pre.free@[j] == i as usize;
                    assert(self.free@[j] == i as usize);
                }
            }
            assert(self.wf());
            // the denoted map lost exactly the binding at `id`
            assert forall|j: usize| #![all_triggers] true implies {
                (self.live(j) <==> pre.live(j) && j != id) && (self.live(j) ==> self@[j]
                    == pre@[j])
            } by {
                if pre.live(j) && j != id {
                    let s: usize = pre.forward@[j as int]->0;
                    assert(pre.reverse@[s as int] == j);
                    assert(s != slot);
                    if pre.forward@[j as int] == Some(lastu) {
                        assert(j == owner);
                        assert(self.forward@[j as int] == Some(slot));
                        assert(self@[j] == self.raw@[slot as int]);
                        assert(self.raw@[slot as int] == pre.raw@[lasti]);
                    } else {
                        assert(self.forward@[j as int] == pre.forward@[j as int]);
                        assert(s != lasti);
                        assert(self.raw@[s as int] == pre.raw@[s as int]);
                    }
                }
                if self.live(j) {
                    assert(pre.forward@[j as int] == self.forward@[j as int]
                        || pre.forward@[j as int] == Some(lastu) || j == id);
                }
            }
            assert(self@ =~= old(self)@.remove(id));
        }
        Some(r)
    }

    /// Moves the last physical element into `slot` and returns the element
    /// that sat there, shrinking the array by one.
    fn realloc(&mut self, slot: usize) -> (r: T)
        requires
            slot < old(self).raw@.len(),
            old(self).raw@.len() <= usize::MAX,
            old(self).forward@.len() <= usize::MAX,
            old(self).reverse@.len() == old(self).raw@.len(),
            forall|s: int|
                0 <= s < old(self).reverse@.len() && s != slot ==> (
                #[trigger] old(self).reverse@[s]) < old(self).forward@.len() && old(
                    self,
                ).forward@[old(self).reverse@[s] as int] == Some(s as usize),
            // the slot's owner was already unlinked
            forall|i: int|
                0 <= i < old(self).forward@.len() && (#[trigger] old(self).forward@[i]) is Some
                    ==> old(self).forward@[i]->0 != slot && old(self).forward@[i]->0 < old(
                    self,
                ).raw@.len() && old(self).reverse@[old(self).forward@[i]->0 as int] == i as usize,
        ensures
            r == old(self).raw@[slot as int],
            final(self).forward@.len() == old(self).forward@.len(),
            final(self).free@ == old(self).free@,
            final(self).raw@ == old(self).raw@.update(slot as int, old(self).raw@.last()).drop_last(),
            final(self).reverse@ == old(self).reverse@.update(
                slot as int,
                old(self).reverse@.last(),
            ).drop_last(),
            forall|i: int|
                0 <= i < old(self).forward@.len() ==> #[trigger] final(self).forward@[i] == (
                if old(self).forward@[i] == Some((old(self).raw@.len() - 1) as usize) {
                    Some(slot)
                } else {
                    old(self).forward@[i]
                }),
    {
        let last: usize = self.raw.len() - 1;
        let idx: usize = self.reverse[last];
        if slot == last {
            let elem = self.raw.pop().unwrap();
            self.reverse.pop();
            proof {
                assert forall|i: int|
                    0 <= i < old(self).forward@.len()
                        implies old(self).forward@[i] != Some((old(self).raw@.len() - 1) as usize)
                     by {
                    if old(self).forward@[i] is Some {
                        assert(old(self).forward@[i]->0 != slot);
                    }
                }
                assert(self.raw@ =~= old(self).raw@.update(
                    slot as int,
                    old(self).raw@.last(),
                ).drop_last());
                assert(self.reverse@ =~= old(self).reverse@.update(
                    slot as int,
                    old(self).reverse@.last(),
                ).drop_last());
            }
            return elem;
        }
        self.forward.set(idx, Some(slot));
        let mut elem = self.raw.pop().unwrap();
        self.raw.set_and_swap(slot, &mut elem);
        self.reverse.set(slot, idx);
        self.reverse.pop();
        proof {
            let lastu = (old(self).raw@.len() - 1) as usize;
            assert(old(self).forward@[idx as int] == Some(lastu));
            assert forall|i: int|
                0 <= i < old(self).forward@.len() implies #[trigger] self.forward@[i] == (
            if old(self).forward@[i] == Some(lastu) {
                Some(slot)
            } else {
                old(self).forward@[i]
            }) by {
                if i != idx && old(self).forward@[i] == Some(lastu) {
                    assert(old(self).reverse@[lastu as int] == i as usize);
                }
            }
            assert(self.raw@ =~= old(self).raw@.update(
                slot as int,
                old(self).raw@.last(),
            ).drop_last());
            assert(self.reverse@ =~= old(self).reverse@.update(
                slot as int,
                old(self).reverse@.last(),
            ).drop_last());
        }
        elem
    }

    /// Whether the container holds no elements.
    pub fn is_empty(&self) -> (r: bool)
        ensures
            r == (self.len_spec() == 0),
    {
        self.raw.is_empty()
    }

    /// Number of live elements.
    pub fn len(&self) -> (r: usize)
        ensures
            r == self.len_spec(),
    {
        self.raw.len()
    }

    /// Whether `id` currently holds an element.
    pub fn contains_key(&self, id: usize) -> (r: bool)
        ensures
            r == self.live(id),
    {
        if id >= self.forward.len() {
            return false;
        }
        self.forward[id].is_some()
    }

    /// Borrows the element at `id`; yields nothing when `id` is not live.
    pub fn get(&self, id: usize) -> (r: Option<&T>)
        requires
            self.wf(),
        ensures
            match r {
                Some(v) => self.live(id) && *v == self@[id],
                None => !self.live(id),
            },
    {
        if id >= self.forward.len() {
            return None;
        }
        match self.forward[id] {
            Some(slot) => Some(&self.raw[slot]),
            None => None,
        }
    }

    /// Mutably borrows the element at `id`; yields nothing when `id` is not
    /// live. Writing through the borrow updates exactly that element.
    pub fn get_mut(&mut self, id: usize) -> (r: Option<&mut T>)
        requires
            old(self).wf(),
        ensures
            final(self).wf(),
            match r {
                Some(v) => {
                    &&& old(self).live(id)
                    &&& *v == old(self)@[id]
                    &&& forall|j: usize| final(self).live(j) <==> old(self).live(j)
                    &&& final(self)@[id] == *final(v)
                    &&& forall|j: usize|
                        old(self).live(j) && j != id ==> final(self)@[j] == old(self)@[j]
                    &&& final(self).len_spec() == old(self).len_spec()
                    &&& final(self).keys_spec() == old(self).keys_spec()
                },
                None => !old(self).live(id) && *final(self) == *old(self),
            },
    {
        if id >= self.forward.len() {
            return None;
        }
        match self.forward[id] {
            Some(slot) => {
                let r = &mut self.raw[slot];
                Some(r)
            },
            None => None,
        }
    }

    /// The live ids, in iteration (physical) order.
    pub fn keys(&self) -> (r: &Vec<usize>)
        ensures
            r@ == self.keys_spec(),
    {
        &self.reverse
    }

    /// The live elements, in iteration (physical) order.
    pub fn values(&self) -> (r: &Vec<T>)
        ensures
            r@ == self.values_spec(),
    {
        &self.raw
    }

    /// The live id/element pairs, in iteration (physical) order.
    pub fn iter(&self) -> (r: Vec<(usize, &T)>)
        requires
            self.wf(),
        ensures
            r@.len() == self.len_spec(),
            forall|s: int|
                0 <= s < r@.len() ==> (#[trigger] r@[s]).0 == self.keys_spec()[s] && *r@[s].1
                    == self.values_spec()[s],
    {
        let mut r: Vec<(usize, &T)> = Vec::new();
        let n: usize = self.raw.len();
        let mut s: usize = 0;
        while s < n
            invariant
                n == self.raw@.len(),
                self.reverse@.len() == self.raw@.len(),
                0 <= s <= n,
                r@.len() == s,
                forall|t: int|
                    0 <= t < s ==> (#[trigger] r@[t]).0 == self.reverse@[t] && *r@[t].1
                        == self.raw@[t],
            decreases n - s,
        {
            r.push((self.reverse[s], &self.raw[s]));
            s = s + 1;
        }
        r
    }

    /// Releases every element and every id; ids start again from zero.
    pub fn clear(&mut self)
        ensures
            final(self).wf(),
            final(self)@ == Map::<usize, T>::empty(),
            forall|j: usize| !final(self).live(j),
            final(self).keys_spec() == Seq::<usize>::empty(),
            final(self).values_spec() == Seq::<T>::empty(),
            final(self).len_spec() == 0,
            final(self).next_id() == 0,
    {
        self.forward.clear();
        self.reverse.clear();
        self.raw.clear();
        self.free.clear();
        proof {
            assert(self@ =~= Map::<usize, T>::empty());
        }
    }

    /// Iteration matches the denoted map: there are as many keys as live
    /// elements, the keys are pairwise distinct, and the value listed at a
    /// position is the map's value at the id listed there.
    pub proof fn lemma_iteration_matches_view(&self)
        requires
            self.wf(),
        ensures
            self.keys_spec().len() == self.len_spec(),
            self.values_spec().len() == self.len_spec(),
            forall|s: int|
                0 <= s < self.keys_spec().len() ==> self.live(#[trigger] self.keys_spec()[s])
                    && self@[self.keys_spec()[s]] == self.values_spec()[s],
            forall|s1: int, s2: int|
                0 <= s1 < s2 < self.keys_spec().len() ==> self.keys_spec()[s1]
                    != self.keys_spec()[s2],
    {
        assert forall|s: int| 0 <= s < self.keys_spec().len() implies self.live(
            #[trigger] self.keys_spec()[s],
        ) && self@[self.keys_spec()[s]] == self.values_spec()[s] by {
            let i = self.reverse@[s];
            assert(self.forward@[i as int] == Some(s as usize));
            assert(self@[i] == self.raw@[s]);
        }
        assert forall|s1: int, s2: int|
            0 <= s1 < s2 < self.keys_spec().len() implies self.keys_spec()[s1]
            != self.keys_spec()[s2] by {
            if self.reverse@[s1] == self.reverse@[s2] {
                assert(self.forward@[self.reverse@[s1] as int] == Some(s1 as usize));
                assert(self.forward@[self.reverse@[s2] as int] == Some(s2 as usize));
            }
        }
    }

    /// Iteration ranges exactly over the live ids: an id appears among the
    /// keys if and only if it is live.
    pub proof fn lemma_keys_exactly_live(&self, i: usize)
        requires
            self.wf(),
        ensures
            self.keys_spec().contains(i) <==> self.live(i),
    {
        if self.keys_spec().contains(i) {
            let s = choose|s: int| 0 <= s < self.reverse@.len() && self.reverse@[s] == i;
            assert(self.forward@[i as int] == Some(s as usize));
        }
        if self.live(i) {
            let s = self.forward@[i as int]->0;
            assert(self.reverse@[s as int] == i);
            assert(self.keys_spec()[s as int] == i);
        }
    }
}

} // verus!
