//! A container with stable indices: an element keeps the index it was
//! given until it is removed, and removing one never moves another.

use vstd::prelude::*;

verus! {

/// A slab of at most `N` elements, addressed by the index handed out when
/// an element is added. Freed indices are handed out again, the one freed
/// last first; fresh indices are handed out in rising order.
pub struct Slab<T, const N: usize> {
    chunk: Vec<Option<T>>,
    spares: Vec<usize>,
}

impl<T, const N: usize> Slab<T, N> {
    /// The slots in index order; slots that were never used are left out.
    pub closed spec fn slots(&self) -> Seq<Option<T>> {
        self.chunk@
    }

    /// The freed indices, the one freed last at the end.
    pub closed spec fn spares(&self) -> Seq<usize> {
        self.spares@
    }

    /// Whether `index` holds an element.
    pub open spec fn occupied(&self, index: int) -> bool {
        0 <= index < self.slots().len() && self.slots()[index] is Some
    }

    /// The element at `index`.
    pub open spec fn element(&self, index: int) -> T
        recommends
            self.occupied(index),
    {
        self.slots()[index].unwrap()
    }

    /// The indices that hold an element.
    pub open spec fn tokens(&self) -> Set<int> {
        Set::new(|index: int| self.occupied(index))
    }

    /// Number of elements held.
    pub open spec fn count(&self) -> int {
        self.slots().len() - self.spares().len()
    }

    /// The index that the next added element gets, if there is room.
    pub open spec fn next_index(&self) -> Option<usize> {
        if self.spares().len() > 0 {
            Some(self.spares().last())
        } else if self.slots().len() < N {
            Some(self.slots().len() as usize)
        } else {
            None
        }
    }

    /// The invariant of every slab: at most `N` slots were ever used, and
    /// the spares are exactly the used slots that are empty, each once.
    pub open spec fn wf(&self) -> bool {
        &&& self.slots().len() <= N
        &&& self.spares().no_duplicates()
        &&& forall|k: int|
            0 <= k < self.spares().len() ==> 0 <= #[trigger] self.spares()[k] < self.slots().len()
        &&& forall|i: int|
            0 <= i < self.slots().len() ==> (#[trigger] self.slots()[i] is None
                <==> self.spares().contains(i as usize))
    }

    /// An empty slab.
    pub fn new() -> (s: Self)
        ensures
            s.wf(),
            s.slots().len() == 0,
            s.spares().len() == 0,
    {
        Slab { chunk: Vec::with_capacity(N), spares: Vec::with_capacity(N) }
    }

    /// Number of elements held.
    pub fn len(&self) -> (n: usize)
        requires
            self.wf(),
        ensures
            n == self.count(),
            n <= N,
    {
        proof {
            self.lemma_spares_bounded();
        }
        self.chunk.len() - self.spares.len()
    }

    /// There are never more spares than used slots.
    pub proof fn lemma_spares_bounded(&self)
        requires
            self.wf(),
        ensures
            self.spares().len() <= self.slots().len(),
    {
        let spares = self.spares();
        let as_ints = spares.map_values(|v: usize| v as int);
        assert(as_ints.no_duplicates()) by {
            assert forall|a: int, b: int|
                0 <= a < as_ints.len() && 0 <= b < as_ints.len() && a != b implies as_ints[a]
                != as_ints[b] by {
                assert(spares[a] != spares[b]);
            }
        }
        as_ints.unique_seq_to_set();
        let range = vstd::set_lib::set_int_range(0, self.slots().len() as int);
        vstd::set_lib::lemma_int_range(0, self.slots().len() as int);
        assert(as_ints.to_set().subset_of(range)) by {
            assert forall|v: int| as_ints.to_set().contains(v) implies range.contains(v) by {
                let k = choose|k: int| 0 <= k < as_ints.len() && as_ints[k] == v;
                assert(spares[k] as int == v);
            }
        }
        vstd::set_lib::lemma_len_subset(as_ints.to_set(), range);
    }

    /// Whether `index` holds an element.
    pub fn contains(&self, index: usize) -> (b: bool)
        ensures
            b == self.occupied(index as int),
    {
        index < self.chunk.len() && self.chunk[index].is_some()
    }

    /// The index that the next added element gets, if there is room.
    pub fn peek_index(&self) -> (r: Option<usize>)
        requires
            self.wf(),
        ensures
            r == self.next_index(),
            r.is_some() <==> self.count() < N,
            r matches Some(i) ==> i < N && !self.occupied(i as int),
    {
        proof {
            self.lemma_spares_bounded();
        }
        if self.spares.len() > 0 {
            let index = self.spares[self.spares.len() - 1];
            assert(self.spares().contains(index));
            Some(index)
        } else if self.chunk.len() < N {
            Some(self.chunk.len())
        } else {
            None
        }
    }

    /// Adds `value` at the index that `next_index` names. A full slab hands
    /// the value back.
    pub fn add(&mut self, value: T) -> (r: Result<usize, T>)
        requires
            old(self).wf(),
        ensures
            final(self).wf(),
            match old(self).next_index() {
                Some(index) => {
                    &&& r == Ok::<usize, T>(index)
                    &&& !old(self).occupied(index as int)
                    &&& final(self).occupied(index as int)
                    &&& final(self).element(index as int) == value
                    &&& forall|i: int|
                        i != index ==> (final(self).occupied(i) <==> old(self).occupied(i))
                    &&& forall|i: int|
                        i != index && old(self).occupied(i) ==> final(self).element(i) == old(
                            self,
                        ).element(i)
                    &&& final(self).count() == old(self).count() + 1
                },
                None => r == Err::<usize, T>(value) && *final(self) == *old(self),
            },
            old(self).next_index().is_some() <==> old(self).count() < N,
    {
        proof {
            self.lemma_spares_bounded();
        }
        if self.spares.len() > 0 {
            let index = self.spares[self.spares.len() - 1];
            assert(old(self).spares().contains(index));
            self.spares.pop();
            self.chunk.set(index, Some(value));
            assert(self.spares() =~= old(self).spares().drop_last());
            assert forall|i: int| 0 <= i < self.slots().len() implies (
            #[trigger] self.slots()[i] is None <==> self.spares().contains(i as usize)) by {
                if i != index {
                    if old(self).spares().contains(i as usize) {
                        let k = choose|k: int|
                            0 <= k < old(self).spares().len() && old(self).spares()[k] == i as usize;
                        assert(self.spares()[k] == i as usize);
                    }
                } else {
                    if self.spares().contains(i as usize) {
                        let k = choose|k: int|
                            0 <= k < self.spares().len() && self.spares()[k] == i as usize;
                        assert(old(self).spares()[k] == old(self).spares().last());
                    }
                }
            }
            Ok(index)
        } else if self.chunk.len() < N {
            let index = self.chunk.len();
            self.chunk.push(Some(value));
            assert forall|i: int| 0 <= i < self.slots().len() implies (
            #[trigger] self.slots()[i] is None <==> self.spares().contains(i as usize)) by {
                if i < index {
                    assert(self.slots()[i] == old(self).slots()[i]);
                }
            }
            Ok(index)
        } else {
            Err(value)
        }
    }

    /// Takes the element at `index` out and frees the index.
    pub fn remove(&mut self, index: usize) -> (value: T)
        requires
            old(self).wf(),
            old(self).occupied(index as int),
        ensures
            final(self).wf(),
            value == old(self).element(index as int),
            !final(self).occupied(index as int),
            final(self).next_index() == Some(index),
            forall|i: int| i != index ==> (final(self).occupied(i) <==> old(self).occupied(i)),
            forall|i: int|
                i != index && old(self).occupied(i) ==> final(self).element(i) == old(
                    self,
                ).element(i),
            final(self).count() == old(self).count() - 1,
    {
        let mut slot: Option<T> = None;
        core::mem::swap(&mut slot, &mut self.chunk[index]);
        self.spares.push(index);
        assert forall|i: int| 0 <= i < self.slots().len() implies (
        #[trigger] self.slots()[i] is None <==> self.spares().contains(i as usize)) by {
            if i == index {
                assert(self.spares()[self.spares().len() - 1] == index);
            } else {
                if old(self).spares().contains(i as usize) {
                    let k = choose|k: int|
                        0 <= k < old(self).spares().len() && old(self).spares()[k] == i as usize;
                    assert(self.spares()[k] == i as usize);
                }
                if self.spares().contains(i as usize) {
                    let k = choose|k: int|
                        0 <= k < self.spares().len() && self.spares()[k] == i as usize;
                    assert(old(self).spares()[k] == i as usize);
                }
            }
        }
        assert(self.spares().no_duplicates()) by {
            assert(!old(self).spares().contains(index));
        }
        slot.unwrap()
    }

    /// The element at `index`.
    pub fn get(&self, index: usize) -> (value: &T)
        requires
            self.occupied(index as int),
        ensures
            *value == self.element(index as int),
    {
        self.chunk[index].as_ref().unwrap()
    }

    /// The element at `index`, for changing it where it lies.
    pub fn get_mut(&mut self, index: usize) -> (value: &mut T)
        requires
            old(self).occupied(index as int),
        ensures
            *value == old(self).element(index as int),
            final(self).spares() == old(self).spares(),
            final(self).slots() == old(self).slots().update(index as int, Some(*final(value))),
            old(self).wf() ==> final(self).wf(),
            final(self).occupied(index as int),
            final(self).element(index as int) == *final(value),
            forall|i: int| final(self).occupied(i) <==> old(self).occupied(i),
            forall|i: int|
                i != index && old(self).occupied(i) ==> final(self).element(i) == old(
                    self,
                ).element(i),
            final(self).next_index() == old(self).next_index(),
            final(self).count() == old(self).count(),
    {
        self.chunk[index].as_mut().unwrap()
    }
}

} // verus!
