//! The generic collection contract exposed to foreign-callable wrappers:
//! create empty, destroy, length, indexed get and append, with an
//! out-of-range index reported as a descriptive error rather than a
//! sentinel. Per-element-type wrapper generation is out of scope; every
//! element type instantiates this one parametric contract.

use vstd::prelude::*;

use crate::errors::CodecError;

verus! {

/// A simple ordered collection wrapping a vector.
pub struct Collection<T> {
    items: Vec<T>,
}

impl<T> View for Collection<T> {
    type V = Seq<T>;

    closed spec fn view(&self) -> Seq<T> {
        self.items@
    }
}

impl<T> Collection<T> {
    /// A new empty collection.
    pub fn new() -> (r: Collection<T>)
        ensures
            r@ == Seq::<T>::empty(),
    {
        Collection { items: Vec::new() }
    }

    /// Destroys the collection, dropping its elements.
    pub fn delete(self) {
    }

    /// The number of elements held.
    pub fn len(&self) -> (r: usize)
        ensures
            r == self@.len(),
    {
        self.items.len()
    }

    /// The element at `index`, failing on an out-of-range index.
    pub fn get(&self, index: usize) -> (r: Result<&T, CodecError>)
        ensures
            index < self@.len() ==> match r {
                Ok(x) => *x == self@[index as int],
                Err(_) => false,
            },
            index >= self@.len() ==> r == Err::<&T, CodecError>(CodecError::ValueOutOfRange),
    {
        if index < self.items.len() {
            Ok(&self.items[index])
        } else {
            Err(CodecError::ValueOutOfRange)
        }
    }

    /// Appends an element at the end.
    pub fn add(&mut self, item: T)
        ensures
            final(self)@ == old(self)@.push(item),
    {
        self.items.push(item);
    }
}

} // verus!
