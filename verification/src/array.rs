//! A non-resizable Vec, produced from a regular Vec.
use vstd::prelude::*;

verus! {

/// A non-resizable vector, produced from a regular Vec.
#[derive(PartialEq, Eq, PartialOrd, Debug)]
pub struct Array<T> {
    vec: Vec<T>,
}

/// Every element of `s` is a clone of `d`.
pub open spec fn all_clones_of<T: Clone>(d: T, s: Seq<T>) -> bool {
    forall|i: int| 0 <= i < s.len() ==> cloned(d, #[trigger] s[i])
}

impl<T> View for Array<T> {
    type V = Seq<T>;

    closed spec fn view(&self) -> Seq<T> {
        self.vec@
    }
}

impl<T> Array<T> {
    /// The number of elements.
    pub fn len(&self) -> (r: usize)
        ensures
            r == self@.len(),
    {
        self.vec.len()
    }

    /// A shared reference to element `index`.
    pub fn index(&self, index: usize) -> (r: &T)
        requires
            index < self@.len(),
        ensures
            *r == self@[index as int],
    {
        &self.vec[index]
    }

    /// A mutable reference to element `index`; the other elements and the
    /// length stay as they are.
    pub fn index_mut(&mut self, index: usize) -> (r: &mut T)
        requires
            index < old(self)@.len(),
        ensures
            *r == old(self)@[index as int],
            final(self)@ == old(self)@.update(index as int, *final(r)),
    {
        vstd::std_specs::vec::vec_index_mut(&mut self.vec, index)
    }
}

impl<T: Clone> Array<T> {
    /// Create an Array by cloning a default value size times.
    pub fn with_default(size: usize, default: T) -> (r: Array<T>)
        ensures
            r@.len() == size,
            forall|i: int| 0 <= i < size ==> cloned(default, #[trigger] r@[i]),
    {
        Array { vec: vec![default; size] }
    }
}

impl<T: Default + Clone> Array<T> {
    /// Create an Array by creating default values size times: every element
    /// is a clone of one value that `T::default` returned.
    pub fn new(size: usize) -> (r: Array<T>)
        ensures
            r@.len() == size,
            exists|d: T| call_ensures(T::default, (), d) && #[trigger] all_clones_of(d, r@),
    {
        let d = T::default();
        let r = Array { vec: vec![d; size] };
        assert(all_clones_of(d, r@));
        r
    }
}

impl<T> From<Vec<T>> for Array<T> {
    fn from(value: Vec<T>) -> (r: Array<T>)
        ensures
            r@ == value@,
    {
        Array { vec: value }
    }
}

impl<T> vstd::std_specs::convert::FromSpecImpl<Vec<T>> for Array<T> {
    open spec fn obeys_from_spec() -> bool {
        true
    }

    closed spec fn from_spec(v: Vec<T>) -> Array<T> {
        Array { vec: v }
    }
}

impl<T: Clone> Clone for Array<T> {
    fn clone(&self) -> (r: Array<T>)
        ensures
            r@.len() == self@.len(),
            forall|i: int| 0 <= i < self@.len() ==> cloned(self@[i], #[trigger] r@[i]),
    {
        Array { vec: self.vec.clone() }
    }
}

} // verus!
