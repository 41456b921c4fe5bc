use vstd::prelude::*;

verus! {

/// Why a swap-chain operation failed.
///
/// Local validation failures (`IncompatibleContext`, `Failed`) are reported
/// before anything is mutated. Device failures are passed through unchanged
/// as `Backend` values, after a bounded rollback of the one buffer in flight.
#[derive(Clone, Copy, PartialEq, Eq, Structural, Debug)]
pub enum Error {
    /// The calling context is not the swap chain's producer context.
    IncompatibleContext,
    /// A precondition was violated: duplicate id, bad attach/detach state,
    /// or a non-positive resize dimension.
    Failed,
    /// An error reported by the device backend, identified by a
    /// backend-defined code and propagated verbatim.
    Backend(u64),
}

} // verus!
