use vstd::prelude::*;

verus! {

/// Append-only storage addressed by typed handles.
#[derive(Debug)]
pub struct Arena<T> {
    inner: Vec<T>,
}

/// A handle into an `Arena<T>`: a position, typed by what it points at.
pub struct Index<T> {
    index: usize,
    _pd: std::marker::PhantomData<T>,
}

impl<T> Index<T> {
    /// The position this handle names.
    pub closed spec fn spec_pos(&self) -> nat {
        self.index as nat
    }

    /// Builds the handle for a given position.
    pub fn from_pos(index: usize) -> (r: Index<T>)
        ensures
            r.spec_pos() == index,
    {
        Index { index, _pd: std::marker::PhantomData }
    }

    /// The position this handle names.
    pub fn pos(&self) -> (r: usize)
        ensures
            r == self.spec_pos(),
    {
        self.index
    }

    /// A copy of the handle.
    pub fn copy(&self) -> (r: Index<T>)
        ensures
            r.spec_pos() == self.spec_pos(),
    {
        Index { index: self.index, _pd: std::marker::PhantomData }
    }

    /// Handles compare by position alone.
    pub fn same(&self, other: &Index<T>) -> (r: bool)
        ensures
            r == (self.spec_pos() == other.spec_pos()),
    {
        self.index == other.index
    }
}

/// The iterator over a mutable slice, carried through opaquely.
#[verifier::external_type_specification]
#[verifier::external_body]
#[verifier::reject_recursive_types(Elem)]
pub struct ExIterMut<'a, Elem: 'a>(std::slice::IterMut<'a, Elem>);

/// Relies on `<[T]>::iter_mut`: it borrows the slice for the iterator's lifetime; a
/// slice's length cannot change through it.
pub assume_specification<'a, X>[ <[X]>::iter_mut ](s: &'a mut [X]) -> (it: std::slice::IterMut<'a, X>)
    ensures
        final(s)@.len() == old(s)@.len(),
;

impl<T> PartialEq for Index<T> {
    fn eq(&self, other: &Index<T>) -> (r: bool) {
        self.index == other.index
    }
}

impl<T> vstd::std_specs::cmp::PartialEqSpecImpl for Index<T> {
    open spec fn obeys_eq_spec() -> bool {
        true
    }

    open spec fn eq_spec(&self, other: &Index<T>) -> bool {
        self.spec_pos() == other.spec_pos()
    }
}

impl<T> Default for Arena<T> {
    fn default() -> (r: Arena<T>)
        ensures
            r@ == Seq::<T>::empty(),
    {
        Arena { inner: Vec::new() }
    }
}

impl<T> View for Arena<T> {
    type V = Seq<T>;

    closed spec fn view(&self) -> Seq<T> {
        self.inner@
    }
}

impl<T> Arena<T> {
    /// An empty arena.
    pub fn new() -> (r: Arena<T>)
        ensures
            r@ == Seq::<T>::empty(),
    {
        Arena { inner: Vec::new() }
    }

    /// Number of stored elements.
    pub fn len(&self) -> (r: usize)
        ensures
            r == self@.len(),
    {
        self.inner.len()
    }

    /// Appends `val` and returns the handle of its slot, which is the old length.
    pub fn push(&mut self, val: T) -> (r: Index<T>)
        requires
            old(self)@.len() < usize::MAX,
        ensures
            final(self)@ == old(self)@.push(val),
            r.spec_pos() == old(self)@.len(),
    {
        let out = Index { index: self.inner.len(), _pd: std::marker::PhantomData };
        self.inner.push(val);
        out
    }

    /// Whether `idx` names a slot of this arena.
    pub open spec fn contains(&self, idx: Index<T>) -> bool {
        idx.spec_pos() < self@.len()
    }

    /// The element behind a handle.
    pub fn get(&self, idx: &Index<T>) -> (r: &T)
        requires
            self.contains(*idx),
        ensures
            *r == self@[idx.spec_pos() as int],
    {
        &self.inner[idx.index]
    }

    /// Replaces the element behind a handle; every other slot is kept.
    pub fn set(&mut self, idx: &Index<T>, val: T)
        requires
            old(self).contains(*idx),
        ensures
            final(self)@ == old(self)@.update(idx.spec_pos() as int, val),
    {
        self.inner.set(idx.index, val);
    }

    /// Iterates over the elements in insertion order.
    pub fn iter(&self) -> (r: std::slice::Iter<'_, T>)
        ensures
            vstd::std_specs::iter::IteratorSpec::remaining(&r) == self@.map_values(|x: T| &x),
    {
        self.inner.as_slice().iter()
    }

    /// Iterates over the elements in insertion order, allowing each to be changed in place.
    pub fn iter_mut(&mut self) -> (it: std::slice::IterMut<'_, T>)
        ensures
            final(self)@.len() == old(self)@.len(),
    {
        self.inner.as_mut_slice().iter_mut()
    }
}

} // verus!
