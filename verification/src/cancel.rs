//! Cooperative cancellation shared between a test batch and the tasks it runs.

use std::sync::atomic::AtomicBool;
use std::sync::atomic::Ordering;
use std::sync::Arc;

use vstd::prelude::*;

verus! {

/// A cancellation flag shared by every clone: cancelling through one clone is
/// seen through all of them.
#[derive(Clone)]
pub struct CancelFlag(Arc<AtomicBool>);

/// Whether two handles share one allocation (`Arc::ptr_eq`). Claimed: when
/// it answers `true`, both point to one allocation and so hold the same value.
/// When it answers `false` nothing is claimed: two allocations are not told
/// apart by their values.
#[verifier::external_body]
fn arc_ptr_eq(a: &Arc<AtomicBool>, b: &Arc<AtomicBool>) -> (r: bool)
    ensures
        r ==> *a == *b,
{
    Arc::ptr_eq(a, b)
}

impl CancelFlag {
    /// The two handles hold equal shared state: true of any two handles on
    /// one flag.
    pub closed spec fn shares(&self, other: &Self) -> bool {
        self.0 == other.0
    }

    /// A new flag, not cancelled.
    pub fn new() -> Self {
        CancelFlag(Arc::new(AtomicBool::new(false)))
    }

    /// Raises the flag for every holder.
    pub fn cancel(&self) {
        self.0.store(true, Ordering::SeqCst);
    }

    /// Whether the flag has been raised.
    pub fn is_cancelled(&self) -> bool {
        self.0.load(Ordering::SeqCst)
    }

    /// A handle on the same flag.
    pub fn child_token(&self) -> (r: Self)
        ensures
            r.shares(self),
    {
        CancelFlag(self.0.clone())
    }

    /// Whether two handles are the same flag.
    pub fn same_as(&self, other: &Self) -> (r: bool)
        ensures
            r ==> self.shares(other),
    {
        arc_ptr_eq(&self.0, &other.0)
    }
}

} // verus!
