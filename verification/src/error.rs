use vstd::prelude::*;

verus! {

/// The ways in which a call can be rejected. Each of them reports a mistake of
/// the caller, not a transient condition: none is worth retrying.
#[derive(Debug, Clone, Copy, PartialEq, Eq, Structural)]
pub enum EcsError {
    /// A component type was attached where one of that type is present already.
    DuplicateComponent,
    /// The entity id does not name a live entity.
    UnknownEntity,
    /// A system type was registered twice in one group.
    DuplicateSystem,
    /// The group id was never handed out, or its group was deregistered.
    UnknownGroup,
}

} // verus!
