use std::any::Any;
use std::sync::Arc;
use std::sync::RwLock;
use vstd::prelude::*;

use crate::util::PropertyId;

verus! {

/// The reader-writer lock of the standard library, as a value that is only
/// carried around: nothing is said of what it holds.
#[verifier::external_type_specification]
#[verifier::external_body]
#[verifier::reject_recursive_types(T)]
pub struct ExRwLock<T: ?Sized>(RwLock<T>);

/// `RwLock::new` wraps a value in a fresh lock. Nothing is claimed of the
/// lock: its content can change behind a shared reference.
pub assume_specification<T>[ RwLock::<T>::new ](t: T) -> (lock: RwLock<T>)
;

/// A reference-counted, lockable cell whose content type has been forgotten.
/// It is an `Arc` of a `dyn Any + Send + Sync`, which verified code cannot
/// name; two cells are equal when they point at the same allocation.
#[verifier::external_body]
pub struct ErasedCell {
    inner: Arc<dyn Any + Send + Sync>,
}

/// Forgets the content type of a shared lock. This is the unsizing coercion
/// of `Arc`; the allocation stays the same.
#[verifier::external_body]
fn erase_cell<T: Send + Sync + 'static>(cell: Arc<RwLock<T>>) -> (erased: ErasedCell) {
    ErasedCell { inner: cell }
}

/// `Arc::clone`: the result points at the allocation that `cell` points at.
#[verifier::external_body]
fn share_cell(cell: &ErasedCell) -> (shared: ErasedCell)
    ensures
        shared == *cell,
{
    ErasedCell { inner: Arc::clone(&cell.inner) }
}

/// `Arc::downcast`: gives the cell with its content type where that type is
/// `RwLock<T>`, and an untyped cell otherwise. Nothing is claimed of the
/// result: which of the two happens is decided by the type of the content,
/// which verified code does not see.
#[verifier::external_body]
fn downcast_cell<T: Send + Sync + 'static>(cell: ErasedCell) -> (typed: Result<
    Arc<RwLock<T>>,
    ErasedCell,
>)
{
    match cell.inner.downcast::<RwLock<T>>() {
        Ok(typed) => Ok(typed),
        Err(inner) => Err(ErasedCell { inner }),
    }
}

/// What asking a cell for a type came to, seen from outside: the typed cell
/// where there is one, and nothing otherwise.
pub open spec fn typed_of<T>(outcome: Result<Arc<RwLock<T>>, ErasedCell>) -> Option<
    Arc<RwLock<T>>,
> {
    match outcome {
        Ok(typed) => Some(typed),
        Err(_) => None,
    }
}

/// `Arc::clone`: another pointer to the allocation that `shared` points at.
#[verifier::external_body]
pub(crate) fn share_arc<T>(shared: &Arc<T>) -> (other: Arc<T>)
    ensures
        other == *shared,
{
    Arc::clone(shared)
}

/// A shared handle to one value: a lockable cell together with the key of the
/// type of the value it was made from. Copies of a handle share the value.
pub struct Handle {
    type_key: u64,
    cell: ErasedCell,
}

impl Handle {
    /// The key of the type of the value behind this handle.
    pub closed spec fn type_key(&self) -> u64 {
        self.type_key
    }

    /// Whether `typed` is what came of asking the cell behind this handle for
    /// its content as a `T`.
    pub closed spec fn cell_gives<T: Send + Sync + 'static>(
        &self,
        typed: Option<Arc<RwLock<T>>>,
    ) -> bool {
        exists|outcome: Result<Arc<RwLock<T>>, ErasedCell>|
            #[trigger] call_ensures(downcast_cell::<T>, (self.cell,), outcome) && typed
                == typed_of(outcome)
    }

    /// Moves `value` into a fresh cell.
    pub fn new<T: PropertyId + Send + Sync + 'static>(value: T) -> (handle: Handle)
        ensures
            handle.type_key() == T::type_key(),
    {
        let type_key = value.self_property_id();
        Handle { type_key, cell: erase_cell(Arc::new(RwLock::new(value))) }
    }

    /// Makes a handle to a cell that the caller keeps sharing.
    pub fn from_shared<T: PropertyId + Send + Sync + 'static>(cell: Arc<RwLock<T>>) -> (handle:
        Handle)
        ensures
            handle.type_key() == T::type_key(),
    {
        Handle { type_key: T::property_id(), cell: erase_cell(cell) }
    }

    /// Returns the key of the type of the value behind this handle.
    pub fn key(&self) -> (key: u64)
        ensures
            key == self.type_key(),
    {
        self.type_key
    }

    /// Returns another handle to the same cell.
    pub fn share(&self) -> (handle: Handle)
        ensures
            handle == *self,
    {
        Handle { type_key: self.type_key, cell: share_cell(&self.cell) }
    }

    /// Returns the cell with its content type, if that type is `T`. A handle
    /// whose key is not the key of `T` never gives one, and its cell is not
    /// asked; a handle whose key is the key of `T` gives what came of asking
    /// its cell.
    pub fn downcast<T: PropertyId + Send + Sync + 'static>(&self) -> (typed: Option<
        Arc<RwLock<T>>,
    >)
        ensures
            self.type_key() != T::type_key() ==> typed is None,
            self.type_key() == T::type_key() ==> self.cell_gives::<T>(typed),
    {
        if self.type_key == T::property_id() {
            let outcome = downcast_cell::<T>(share_cell(&self.cell));
            assert(call_ensures(downcast_cell::<T>, (self.cell,), outcome));
            match outcome {
                Ok(typed) => Some(typed),
                Err(_) => None,
            }
        } else {
            None
        }
    }
}

impl Clone for Handle {
    /// The copy shares the value with the handle it was made from.
    fn clone(&self) -> (handle: Handle)
        ensures
            handle == *self,
    {
        self.share()
    }
}

/// Whether each handle of `handles` stands under the key of its own type.
pub open spec fn keyed_by_type(handles: Map<u64, Handle>) -> bool {
    forall|key: u64| handles.contains_key(key) ==> (#[trigger] handles[key]).type_key() == key
}

} // verus!
