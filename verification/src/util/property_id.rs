use vstd::prelude::*;

verus! {

/// A stable 64-bit identity for a type. Component, system and parameter types
/// have one each; two different types are expected to have different keys.
///
/// Everything that the library proves of typed values rests on the two
/// methods returning the key of the type on every call. An implementation
/// that is compiled without being verified writes `type_key` as an ordinary
/// function that returns the same key.
pub trait PropertyId {
    /// The key of the implementing type.
    spec fn type_key() -> u64;

    /// Returns the key of the implementing type.
    fn property_id() -> (id: u64) where Self: Sized
        ensures
            id == Self::type_key(),
    ;

    /// Returns the key of the type of `self`.
    fn self_property_id(&self) -> (id: u64)
        ensures
            id == Self::type_key(),
    ;
}

} // verus!
