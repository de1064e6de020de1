use std::collections::HashMap;
use std::sync::Arc;
use std::sync::RwLock;
use vstd::prelude::*;

use crate::util::keyed_by_type;
use crate::util::Handle;
use crate::util::PropertyId;

verus! {

broadcast use vstd::std_specs::hash::group_hash_axioms;

/// A parameter is a value from outside the directory that systems are handed
/// when they run: a canvas to draw on, the time that has passed, and so on.
pub trait SystemParam: PropertyId {

}

/// The parameters that the systems of a group are handed, at most one of each
/// type.
pub struct SystemParamAccessor {
    param_id_to_param: HashMap<u64, Handle>,
}

impl View for SystemParamAccessor {
    type V = Map<u64, Handle>;

    closed spec fn view(&self) -> Map<u64, Handle> {
        self.param_id_to_param@
    }
}

impl SystemParamAccessor {
    /// An accessor is well formed when each of its handles stands under the
    /// key of its own type.
    pub open spec fn wf(&self) -> bool {
        keyed_by_type(self@)
    }

    /// The accessor without parameters.
    pub fn new() -> (accessor: SystemParamAccessor)
        ensures
            accessor.wf(),
            accessor@ == Map::<u64, Handle>::empty(),
    {
        SystemParamAccessor { param_id_to_param: HashMap::new() }
    }

    /// Adds `param` in a fresh cell, in place of a parameter of its type that
    /// was added before.
    pub fn add_param<T: 'static + SystemParam + Send + Sync>(self, param: T) -> (accessor:
        SystemParamAccessor)
        requires
            self.wf(),
        ensures
            accessor.wf(),
            accessor@.contains_key(T::type_key()),
            accessor@.remove(T::type_key()) == self@.remove(T::type_key()),
    {
        let handle = Handle::new(param);
        let ghost key = handle.type_key();
        let accessor = self.add_param_handle(handle);
        assert(accessor@.remove(key) =~= self@.remove(key));
        accessor
    }

    /// Adds a parameter that is shared already, in place of a parameter of its
    /// type that was added before.
    pub fn add_param_handle(self, param: Handle) -> (accessor: SystemParamAccessor)
        requires
            self.wf(),
        ensures
            accessor.wf(),
            accessor@ == self@.insert(param.type_key(), param),
    {
        let mut accessor = self;
        let key = param.key();
        accessor.param_id_to_param.insert(key, param);
        accessor
    }

    /// Returns the parameter that stands under `key`, if there is one.
    pub fn get_param_handle(&self, key: u64) -> (found: Option<Handle>)
        ensures
            found == if self@.contains_key(key) {
                Some(self@[key])
            } else {
                None
            },
    {
        match self.param_id_to_param.get(&key) {
            Some(handle) => Some(handle.share()),
            None => None,
        }
    }

    /// Returns the parameter of type `T` with its type, ready to be locked. An
    /// accessor that holds no parameter under the key of `T` gives none; one
    /// that holds a parameter under that key gives what that parameter's
    /// handle gives for `T`.
    pub fn get_param<T: 'static + SystemParam + Send + Sync>(&self) -> (found: Option<
        Arc<RwLock<T>>,
    >)
        ensures
            !self@.contains_key(T::type_key()) ==> found is None,
            self@.contains_key(T::type_key()) ==> call_ensures(
                Handle::downcast::<T>,
                (&self@[T::type_key()],),
                found,
            ),
    {
        match self.param_id_to_param.get(&T::property_id()) {
            Some(handle) => handle.downcast::<T>(),
            None => None,
        }
    }
}

impl Default for SystemParamAccessor {
    fn default() -> (accessor: SystemParamAccessor)
        ensures
            accessor.wf(),
            accessor@ == Map::<u64, Handle>::empty(),
    {
        SystemParamAccessor::new()
    }
}

} // verus!
