//! The list of component types of an archetype, held in a `SmallVec` so that
//! the common case of a few types needs no allocation.

use smallvec::SmallVec;
use std::any::TypeId;
use vstd::prelude::*;

verus! {

/// A list of type keys, kept inline up to eight entries.
///
/// Holds a `smallvec::SmallVec<[TypeId; 8]>`. Verus cannot take that type as
/// a field because of its `Array` bound, so the struct is opaque and its
/// content is spoken of through [`type_seq`].
#[verifier::external_body]
pub struct TypeList {
    inner: SmallVec<[TypeId; 8]>,
}

/// The keys that a list holds, in order.
pub uninterp spec fn type_seq(list: TypeList) -> Seq<TypeId>;

impl TypeList {
    /// `SmallVec::new`: an empty list.
    #[verifier::external_body]
    pub(crate) fn new() -> (list: TypeList)
        ensures
            type_seq(list).len() == 0,
    {
        TypeList { inner: SmallVec::new() }
    }

    /// `SmallVec::push`: appends `key` at the end.
    #[verifier::external_body]
    pub(crate) fn push(&mut self, key: TypeId)
        ensures
            type_seq(*final(self)) == type_seq(*old(self)).push(key),
    {
        self.inner.push(key);
    }

    /// `SmallVec::len`: the number of keys held.
    #[verifier::external_body]
    pub(crate) fn len(&self) -> (n: usize)
        ensures
            n == type_seq(*self).len(),
    {
        self.inner.len()
    }

    /// Indexing through `SmallVec`'s `Deref` to a slice: the key at position
    /// `i`. Out of range the index panics, so `i` must be in range.
    #[verifier::external_body]
    pub(crate) fn get(&self, i: usize) -> (key: TypeId)
        requires
            i < type_seq(*self).len(),
        ensures
            key == type_seq(*self)[i as int],
    {
        self.inner[i]
    }
}

} // verus!
