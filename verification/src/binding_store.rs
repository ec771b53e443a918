//! The binding type store: the map from a binding id to its resolved type,
//! valid for one tree.
//!
//! It is populated while walking binder nodes during both encode and decode,
//! so a decoder can type-check binding uses without re-running inference over
//! the reconstructed tree. Declaring an id twice is an error; looking up an
//! undeclared id is an error.

use vstd::prelude::*;

use crate::errors::CodecError;
use crate::expr::TypeTag;

verus! {

/// The map built by folding declaration entries in order: a later entry for
/// the same id would win, though `declare` never admits one.
pub open spec fn entries_map(s: Seq<(u32, TypeTag)>) -> Map<u32, TypeTag>
    decreases s.len(),
{
    if s.len() == 0 {
        Map::empty()
    } else {
        entries_map(s.drop_last()).insert(s.last().0, s.last().1)
    }
}

/// The per-tree map from binding id to resolved type.
pub struct BindingTypeStore {
    entries: Vec<(u32, TypeTag)>,
}

impl View for BindingTypeStore {
    type V = Map<u32, TypeTag>;

    closed spec fn view(&self) -> Map<u32, TypeTag> {
        entries_map(self.entries@)
    }
}

proof fn lemma_entries_map_push(s: Seq<(u32, TypeTag)>, e: (u32, TypeTag))
    ensures
        entries_map(s.push(e)) == entries_map(s).insert(e.0, e.1),
{
    assert(s.push(e).drop_last() =~= s);
    assert(s.push(e).last() == e);
}

impl BindingTypeStore {
    /// An empty store.
    pub fn new() -> (r: BindingTypeStore)
        ensures
            r@ == Map::<u32, TypeTag>::empty(),
    {
        BindingTypeStore { entries: Vec::new() }
    }

    /// The resolved type of `id`, failing when `id` was never declared.
    pub fn lookup(&self, id: u32) -> (r: Result<TypeTag, CodecError>)
        ensures
            self@.contains_key(id) ==> r == Ok::<TypeTag, CodecError>(self@[id]),
            !self@.contains_key(id) ==> r == Err::<TypeTag, CodecError>(
                CodecError::UnresolvedBinding,
            ),
    {
        let ghost s = self.entries@;
        let mut i: usize = self.entries.len();
        proof {
            assert(s.take(i as int) =~= s);
        }
        loop
            invariant
                s == self.entries@,
                i <= s.len(),
                self@.contains_key(id) <==> entries_map(s.take(i as int)).contains_key(id),
                self@.contains_key(id) ==> entries_map(s.take(i as int)).contains_key(id)
                    && entries_map(s.take(i as int))[id] == self@[id],
            decreases i,
        {
            if i == 0 {
                proof {
                    assert(s.take(0) =~= Seq::<(u32, TypeTag)>::empty());
                }
                return Err(CodecError::UnresolvedBinding);
            }
            i = i - 1;
            let entry = self.entries[i];
            proof {
                assert(s.take(i + 1).drop_last() =~= s.take(i as int));
                assert(s.take(i + 1).last() == s[i as int]);
                assert(entries_map(s.take(i + 1)) == entries_map(s.take(i as int)).insert(
                    s[i as int].0,
                    s[i as int].1,
                ));
            }
            if entry.0 == id {
                return Ok(entry.1);
            }
        }
    }

    /// Whether `id` has been declared.
    pub fn contains(&self, id: u32) -> (r: bool)
        ensures
            r <==> self@.contains_key(id),
    {
        match self.lookup(id) {
            Ok(_) => true,
            Err(_) => false,
        }
    }

    /// Declares `id` with its resolved type, failing when `id` is already
    /// present; on failure the store is unchanged.
    pub fn declare(&mut self, id: u32, tpe: TypeTag) -> (r: Result<(), CodecError>)
        ensures
            old(self)@.contains_key(id) ==> r == Err::<(), CodecError>(
                CodecError::DuplicateBinding,
            ) && final(self)@ == old(self)@,
            !old(self)@.contains_key(id) ==> r == Ok::<(), CodecError>(()) && final(self)@ == old(
                self,
            )@.insert(id, tpe),
    {
        if self.contains(id) {
            Err(CodecError::DuplicateBinding)
        } else {
            proof {
                lemma_entries_map_push(self.entries@, (id, tpe));
            }
            self.entries.push((id, tpe));
            Ok(())
        }
    }
}

} // verus!
