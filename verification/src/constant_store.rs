//! The constant store: an ordered, deduplication-free table of the literal
//! values met while encoding or decoding one tree.
//!
//! A store is created fresh for each top-level tree operation and never
//! shared across trees. In segregated mode every literal is appended here
//! once, in encounter order, and the tree carries a placeholder holding the
//! index of first insertion.

use vstd::prelude::*;

use crate::errors::CodecError;
use crate::expr::Constant;

verus! {

/// The ordered table of literals for one tree operation.
pub struct ConstantStore {
    constants: Vec<Constant>,
}

impl View for ConstantStore {
    type V = Seq<Constant>;

    closed spec fn view(&self) -> Seq<Constant> {
        self.constants@
    }
}

impl ConstantStore {
    /// An empty store.
    pub fn new() -> (r: ConstantStore)
        ensures
            r@ == Seq::<Constant>::empty(),
    {
        ConstantStore { constants: Vec::new() }
    }

    /// How many literals the store holds.
    pub fn len(&self) -> (r: usize)
        ensures
            r == self@.len(),
    {
        self.constants.len()
    }

    /// Appends a literal and returns its index: the position of insertion.
    /// Identical values appended again are not deduplicated.
    pub fn append(&mut self, c: Constant) -> (idx: usize)
        ensures
            final(self)@ == old(self)@.push(c),
            idx == old(self)@.len(),
    {
        let idx = self.constants.len();
        self.constants.push(c);
        idx
    }

    /// The literal at `idx`, failing on an out-of-range index.
    pub fn get(&self, idx: usize) -> (r: Result<Constant, CodecError>)
        ensures
            idx < self@.len() ==> r == Ok::<Constant, CodecError>(self@[idx as int]),
            idx >= self@.len() ==> r == Err::<Constant, CodecError>(CodecError::ValueOutOfRange),
    {
        if idx < self.constants.len() {
            Ok(self.constants[idx])
        } else {
            Err(CodecError::ValueOutOfRange)
        }
    }

    /// Empties the store for reuse within a new top-level operation.
    pub fn reset(&mut self)
        ensures
            final(self)@ == Seq::<Constant>::empty(),
    {
        self.constants.clear();
    }
}

} // verus!
