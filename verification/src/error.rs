//! What can be wrong with the debug information of a program.
use vstd::prelude::*;

verus! {

/// Why no model could be built from the debug information.
#[derive(Debug, Clone, Copy, PartialEq, Eq)]
pub enum ModelError {
    /// A member of a future has no name.
    MemberWithoutName,
    /// A member of a future has no known size.
    MemberWithoutSize,
    /// The size of a member of a future is not a whole number of bytes.
    MemberNotInBytes,
    /// A state of a future has no discriminant value.
    VariantWithoutDiscriminant,
    /// A state of a future waits for more than one future.
    MultipleAwaitees,
    /// A future does not have exactly one variant part.
    VariantParts,
    /// A future does not have exactly one member outside of its states.
    StateMember,
    /// The member of a future outside of its states is not named `__state`.
    StateMemberName,
    /// A future has no known size.
    FutureWithoutSize,
    /// The layout of a future contradicts itself: a member lies outside of
    /// the future, two states share a discriminant value, or the
    /// discriminant has a size that cannot be read.
    MalformedLayout,
    /// An array of futures does not have exactly one field.
    ArrayField,
    /// The field of an array of futures is not an array.
    ArrayType,
    /// The number of elements of an array of futures is not known.
    ArrayCount,
    /// The size of an array of futures is not known.
    ArraySize,
    /// An awaitee of a join future has no known type.
    JoinAwaiteeType,
    /// The wrapper around an awaitee of a join future has an unexpected layout.
    JoinAwaiteeLayout,
    /// The state of the task header is neither 8 nor 32 bits wide.
    HeaderStateSize,
    /// The task header has no field `state`.
    HeaderWithoutState,
    /// The debug information holds no task header.
    HeaderNotFound,
    /// A task pool lies in no namespace.
    PoolWithoutNamespace,
    /// The namespace of a task pool has no parent.
    PoolNamespaceParent,
    /// The namespace of a task pool has no name.
    PoolNamespaceName,
    /// A task pool has no address.
    PoolWithoutAddress,
    /// A task pool has no known size.
    PoolWithoutSize,
    /// The type of a task pool was not found.
    PoolTypeNotFound,
    /// The type of a task pool does not have exactly one member.
    PoolMembers,
    /// The member of a task pool has no type.
    PoolMemberType,
    /// The member of a task pool is not an array.
    PoolArray,
    /// The number of slots of a task pool is not known.
    PoolArrayCount,
    /// The type of the slots of a task pool is not known.
    PoolElementType,
    /// The slots of a task pool have no member `future`.
    PoolFutureOffset,
    /// The type of the future of a task pool was not found.
    PoolFutureType,
    /// The future of a task pool is not the future of an `async` function.
    PoolNotAsyncFn,
    /// The slots of a task pool do not fill it, or have no room for the
    /// header and the future.
    MalformedPool,
}

} // verus!
