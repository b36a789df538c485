//! Type-erased component cells and runtime type keys.
//!
//! A component of any type is stored as an [`ErasedComponent`]: a boxed value
//! whose type is only known at run time. Every typed access goes through a
//! checked downcast.

use std::any::Any;
use std::any::TypeId;
use vstd::prelude::*;

verus! {

/// `std::any::TypeId`, the run-time identifier of a type. Opaque: only
/// equality is used.
#[verifier::external_type_specification]
#[verifier::external_body]
pub struct ExTypeId(TypeId);

/// One component value with its type erased.
///
/// Holds a `Box<dyn Any + Send + Sync>`. Verus takes no trait object of more
/// than one trait as a field type, so the struct is opaque to it: what is
/// known of a cell is what [`cell_type`] and [`holds`] say.
#[verifier::external_body]
pub struct ErasedComponent {
    inner: Box<dyn Any + Send + Sync>,
}

/// The type key of the value inside a cell: what `Any::type_id` returns for
/// the boxed value.
pub uninterp spec fn cell_type(cell: ErasedComponent) -> TypeId;

/// Whether `cell` holds `value`: whether it is what boxing `value` gives.
pub closed spec fn holds<T: Send + Sync + 'static>(cell: ErasedComponent, value: T) -> bool {
    call_ensures(ErasedComponent::boxed::<T>, (value,), cell)
}

/// Whether `key` is the type key of every cell that holds a `T`.
pub open spec fn keys_all<T: Send + Sync + 'static>(key: TypeId) -> bool {
    forall|cell: ErasedComponent, value: T| #[trigger] holds(cell, value) ==> cell_type(cell) == key
}

/// The type key of `T`: the type key of the cells that hold a `T`.
pub closed spec fn type_key<T: Send + Sync + 'static>() -> TypeId {
    choose|key: TypeId| keys_all::<T>(key)
}

/// `TypeId::of::<T>()`: the key under which components of type `T` are
/// stored. It depends on the type alone, and it is what `Any::type_id` gives
/// for every value of type `T`, so it is the type key of every cell that
/// holds a `T`.
#[verifier::external_body]
pub(crate) fn type_key_of<T: Send + Sync + 'static>() -> (key: TypeId)
    ensures
        key == type_key::<T>(),
        keys_all::<T>(key),
{
    TypeId::of::<T>()
}

/// `TypeId::eq`: two type keys compare equal exactly when they are the same
/// key.
#[verifier::external_body]
pub(crate) fn same_type(a: &TypeId, b: &TypeId) -> (r: bool)
    ensures
        r == (*a == *b),
{
    a == b
}

/// Marker for component types: any type that can be shared between threads
/// and holds no borrowed data.
pub trait Component: Send + Sync + 'static {}

impl<T: Send + Sync + 'static> Component for T {}

/// The key under which components of type `T` are stored.
pub fn component_key<T: Component>() -> (key: TypeId)
    ensures
        key == type_key::<T>(),
        keys_all::<T>(key),
{
    type_key_of::<T>()
}

impl ErasedComponent {
    /// Erase the type of `value`: the cell holds `value` under the type key
    /// of `T`.
    pub fn new<T: Component>(value: T) -> (cell: ErasedComponent)
        ensures
            holds(cell, value),
            cell_type(cell) == type_key::<T>(),
    {
        let key = type_key_of::<T>();
        let cell = ErasedComponent::boxed(value);
        assert(holds(cell, value));
        cell
    }

    /// The type key of the value held.
    pub fn key(&self) -> (k: TypeId)
        ensures
            k == cell_type(*self),
    {
        self.content_key()
    }

    /// Whether the value held has the type key `key`.
    pub fn is_type(&self, key: &TypeId) -> (b: bool)
        ensures
            b == (cell_type(*self) == *key),
    {
        let k = self.content_key();
        same_type(&k, key)
    }

    /// The value as a `T`, if it is one: `Some` exactly when the cell has the
    /// type key of `T`, and then the value that the cell holds.
    pub fn get<T: Component>(&self) -> (r: Option<&T>)
        ensures
            r is Some <==> cell_type(*self) == type_key::<T>(),
            r matches Some(value) ==> holds(*self, *value),
            forall|value: T| #[trigger] holds(*self, value) ==> r == Some(&value),
    {
        self.downcast_ref::<T>()
    }

    /// `Box::new` with an unsizing coercion to `dyn Any`: wraps `value` into a
    /// cell. The cell that it gives is the cell that [`holds`] the value.
    #[verifier::external_body]
    pub(crate) fn boxed<T: Send + Sync + 'static>(value: T) -> ErasedComponent {
        ErasedComponent { inner: Box::new(value) }
    }

    /// `Any::type_id` on the boxed value: the type key of the cell's content.
    #[verifier::external_body]
    pub(crate) fn content_key(&self) -> (k: TypeId)
        ensures
            k == cell_type(*self),
    {
        (*self.inner).type_id()
    }

    /// `<dyn Any>::downcast_ref`: the content as a `T` exactly when the cell
    /// has the type key of `T`; it is then the value that the cell holds.
    #[verifier::external_body]
    pub(crate) fn downcast_ref<T: Send + Sync + 'static>(&self) -> (r: Option<&T>)
        ensures
            r is Some <==> cell_type(*self) == type_key::<T>(),
            r matches Some(value) ==> holds(*self, *value),
            forall|value: T| #[trigger] holds(*self, value) ==> r == Some(&value),
    {
        self.inner.downcast_ref::<T>()
    }

    /// `<dyn Any>::downcast_mut`: mutable access to the content as a `T`
    /// exactly when the cell has the type key of `T`. What the caller leaves
    /// behind the reference is what the cell holds afterwards; the cell keeps
    /// its type key, since the boxed value stays a `T`.
    #[verifier::external_body]
    pub(crate) fn downcast_mut<T: Send + Sync + 'static>(&mut self) -> (r: Option<&mut T>)
        ensures
            cell_type(*final(self)) == cell_type(*old(self)),
            r is Some <==> cell_type(*old(self)) == type_key::<T>(),
            r is None ==> *final(self) == *old(self),
            r matches Some(value) ==> holds(*old(self), *value) && holds(
                *final(self),
                *final(value),
            ),
            forall|value: T| #[trigger] holds(*old(self), value) ==> r is Some && *r.unwrap() == value,
    {
        self.inner.downcast_mut::<T>()
    }
}

} // verus!
