//! Defines the different kinds of reuse pollicies for resource pools.
//!
//! A reuse pollicy is evaluated exactly once per release, with exclusive
//! access to the value the holder left, and decides whether that value is kept
//! for the next holder or replaced with a freshly constructed one.

use core::marker::PhantomData;
use vstd::prelude::*;

use crate::Resource;

verus! {

/// A trait which defines a reuse pollicy.
pub trait ReusePollicy<R>: Sized {
    /// The value left after the release-time cleanup that `reuse` performs.
    spec fn clean_spec(resource: R) -> R;

    /// Whether the cleaned value is kept for the next holder.
    spec fn keep_spec(resource: R) -> bool;

    /// Returns `true` if `resource` should be reused.
    ///
    /// This function is called after a `resource` has been released, whatever
    /// way the holder exited. If any cleanup is required before a `resource`
    /// instance can be reused it should be performed by this function.
    fn reuse(resource: &mut R) -> (keep: bool)
        ensures
            *final(resource) == Self::clean_spec(*old(resource)),
            keep == Self::keep_spec(*old(resource)),
    ;
}

/// A pollicy which makes the decision to reuse or discard a resource instance
/// at runtime, by the predicate `P` supplies.
pub struct Pollicy<P>(PhantomData<P>);

/// A flag to indicate that a resource pool should reuse resource instances.
///
/// This is the strictest pollicy which will spend the minimum amount of time
/// producing resource instances: the released value is left untouched, so
/// whatever state a failed holder left persists.
pub struct Reuse;

/// A flag to indicate that a resource pool should not reuse resource
/// instances: every release stores a freshly constructed value, so each new
/// holder observes a pristine one.
pub struct NoReuse;

impl<R> ReusePollicy<R> for Reuse {
    open spec fn clean_spec(resource: R) -> R {
        resource
    }

    open spec fn keep_spec(resource: R) -> bool {
        true
    }

    fn reuse(resource: &mut R) -> (keep: bool) {
        true
    }
}

impl<R> ReusePollicy<R> for NoReuse {
    open spec fn clean_spec(resource: R) -> R {
        resource
    }

    open spec fn keep_spec(resource: R) -> bool {
        false
    }

    fn reuse(resource: &mut R) -> (keep: bool) {
        false
    }
}

impl<R, P: ReusePollicy<R>> ReusePollicy<R> for Pollicy<P> {
    open spec fn clean_spec(resource: R) -> R {
        P::clean_spec(resource)
    }

    open spec fn keep_spec(resource: R) -> bool {
        P::keep_spec(resource)
    }

    fn reuse(resource: &mut R) -> (keep: bool) {
        P::reuse(resource)
    }
}

/// What the pollicy `P` stores back into a slot whose holder left `left`: the
/// cleaned value where the pollicy keeps it, a freshly constructed one where
/// it does not.
pub open spec fn policy_relates<R: Resource, P: ReusePollicy<R>>(left: R, stored: R) -> bool {
    if P::keep_spec(left) {
        stored == P::clean_spec(left)
    } else {
        stored.is_fresh()
    }
}

/// Under always-keep, a release stores the exact value the holder left, so
/// the next acquirer observes it unchanged.
pub proof fn lemma_always_keep<R: Resource>(left: R, stored: R)
    requires
        policy_relates::<R, Reuse>(left, stored),
    ensures
        stored == left,
{
}

/// Under always-replace, a release stores a freshly constructed value,
/// whatever the holder left.
pub proof fn lemma_always_replace<R: Resource>(left: R, stored: R)
    requires
        policy_relates::<R, NoReuse>(left, stored),
    ensures
        stored.is_fresh(),
{
}

/// Under a predicate pollicy, the stored value matches keep or replace
/// exactly as the predicate dictated on the released value.
pub proof fn lemma_predicate_decides<R: Resource, P: ReusePollicy<R>>(left: R, stored: R)
    requires
        policy_relates::<R, Pollicy<P>>(left, stored),
    ensures
        P::keep_spec(left) ==> stored == P::clean_spec(left),
        !P::keep_spec(left) ==> stored.is_fresh(),
{
}

} // verus!
