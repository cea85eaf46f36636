//! A registry of the arrays that a compute device holds, by number.

use vstd::prelude::*;

verus! {

/// The arrays registered with a device. Each has a number, which is its
/// place in the registry, a handle and a size. A size of 0 marks a place
/// whose array was unregistered; such places are given out again, last
/// unregistered first.
pub struct ArrayRegistry<T: Copy> {
    array_list: Vec<T>,
    array_size: Vec<usize>,
    free_list: Vec<usize>,
}

impl<T: Copy> ArrayRegistry<T> {
    /// The handles, by number.
    pub closed spec fn arrays(&self) -> Seq<T> {
        self.array_list@
    }

    /// The sizes, by number.
    pub closed spec fn sizes(&self) -> Seq<usize> {
        self.array_size@
    }

    /// The numbers that can be given out again.
    pub closed spec fn free(&self) -> Seq<usize> {
        self.free_list@
    }

    /// There is a size for each handle, and every number that can be given
    /// out again is the number of a place.
    pub open spec fn wf(&self) -> bool {
        &&& self.arrays().len() == self.sizes().len()
        &&& forall|i: int| 0 <= i < self.free().len() ==> #[trigger] self.free()[i] < self.arrays().len()
    }

    /// An empty registry.
    pub fn new() -> (registry: ArrayRegistry<T>)
        ensures
            registry.wf(),
            registry.arrays().len() == 0,
            registry.sizes().len() == 0,
            registry.free().len() == 0,
    {
        ArrayRegistry { array_list: Vec::new(), array_size: Vec::new(), free_list: Vec::new() }
    }

    /// Registers an array of a size that is not 0 and gives its number. The
    /// place that was unregistered last is used again, and keeps its size
    /// of 0; without such a place the array gets a new place at the end.
    pub fn register_array(&mut self, array: T, size: usize) -> (id: u32)
        requires
            old(self).wf(),
            size != 0,
            old(self).arrays().len() <= u32::MAX,
        ensures
            final(self).wf(),
            old(self).free().len() > 0 ==> id == old(self).free().last() && final(self).arrays()
                == old(self).arrays().update(id as int, array) && final(self).sizes() == old(
                self,
            ).sizes() && final(self).free() == old(self).free().drop_last(),
            old(self).free().len() == 0 ==> id == old(self).arrays().len() && final(self).arrays()
                == old(self).arrays().push(array) && final(self).sizes() == old(self).sizes().push(
                size,
            ) && final(self).free() == old(self).free(),
    {
        match self.free_list.pop() {
            Some(idx) => {
                assert(old(self).free()[old(self).free().len() - 1] < old(self).arrays().len());
                self.array_list[idx] = array;
                idx as u32
            },
            None => {
                self.array_list.push(array);
                self.array_size.push(size);
                (self.array_list.len() - 1) as u32
            },
        }
    }

    /// The handle of a registered array.
    pub fn get_array(&self, id: u32) -> (array: T)
        requires
            self.wf(),
            id < self.arrays().len(),
            self.sizes()[id as int] != 0,
        ensures
            array == self.arrays()[id as int],
    {
        self.array_list[id as usize]
    }

    /// The size of the array at a place, 0 for a place without array.
    pub fn get_array_size(&self, id: u32) -> (size: usize)
        requires
            self.wf(),
            id < self.arrays().len(),
        ensures
            size == self.sizes()[id as int],
    {
        self.array_size[id as usize]
    }

    /// Unregisters the array at a place: its size becomes 0 and its number
    /// can be given out again.
    pub fn unregister_array(&mut self, id: u32)
        requires
            old(self).wf(),
            id < old(self).arrays().len(),
        ensures
            final(self).wf(),
            final(self).arrays() == old(self).arrays(),
            final(self).sizes() == old(self).sizes().update(id as int, 0),
            final(self).free() == old(self).free().push(id as usize),
    {
        self.array_size[id as usize] = 0;
        self.free_list.push(id as usize);
        assert forall|i: int| 0 <= i < self.free().len() implies #[trigger] self.free()[i]
            < self.arrays().len() by {
            if i < old(self).free().len() {
                assert(old(self).free()[i] < old(self).arrays().len());
            }
        }
    }

    /// Tells whether a number is that of a place of the registry.
    pub fn contains(&self, id: u32) -> (r: bool)
        ensures
            r == (id < self.arrays().len()),
    {
        (id as usize) < self.array_list.len()
    }
}

} // verus!
