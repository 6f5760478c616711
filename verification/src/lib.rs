//! Mutual-exclusion resource pools: a single-slot pool and a multi-slot pool,
//! both built on a shared wait stack of parked execution contexts and a
//! pluggable reuse policy that decides, after each release, whether a resource
//! value is kept as-is or replaced with a freshly constructed one.
//!
//! Callers borrow a resource value for one acquisition round, with the pool
//! guaranteeing at most one holder per slot and a wakeup for waiters on each
//! release. The pools here are the decision core of the protocol: they say who
//! acquires which slot, what the reuse policy stores back, and which parked
//! context each release resumes. The mechanism by which a context actually
//! blocks and resumes is an injected capability of the embedding; a context is
//! named here by a plain token.

use vstd::prelude::*;

pub mod pollicy;

mod multi_resource;
mod resource;
mod single_resource;
mod sync_stack;

pub use self::multi_resource::MultiResource;
pub use self::single_resource::SingleResource;
pub use self::sync_stack::SyncStack;

verus! {

/// The externally observable state of a resource pool: its slots, the indices
/// of the slots no holder has checked out, and the parked waiters.
#[verifier::ext_equal]
pub struct PoolModel<R> {
    /// The value in each slot; `None` marks a slot checked out by a holder.
    pub slots: Seq<Option<R>>,
    /// Indices of the slots not currently checked out. Acquisition takes the
    /// last one, release appends the returned one.
    pub free: Seq<usize>,
    /// Tokens of the parked execution contexts, the most recently parked last.
    pub waiters: Seq<u64>,
}

/// True when an acquisition can succeed at once: some slot is free.
pub open spec fn pool_available<R>(m: PoolModel<R>) -> bool {
    m.free.len() > 0
}

/// The slot index the next successful acquisition hands out.
pub open spec fn next_id<R>(m: PoolModel<R>) -> usize {
    m.free.last()
}

/// The resource value the next successful acquisition hands out.
pub open spec fn next_resource<R>(m: PoolModel<R>) -> R {
    m.slots[next_id(m) as int]->0
}

/// Pool states the operations keep to: every free index names a slot, no index
/// is free twice, a slot holds a value exactly when it is free, and no context
/// is parked twice.
pub open spec fn pool_wf<R>(m: PoolModel<R>) -> bool {
    &&& forall|k: int| 0 <= k < m.free.len() ==> (#[trigger] m.free[k]) < m.slots.len()
    &&& forall|k: int, l: int| 0 <= k < l < m.free.len() ==> m.free[k] != m.free[l]
    &&& forall|k: int| 0 <= k < m.free.len() ==> m.slots[#[trigger] m.free[k] as int] is Some
    &&& forall|i: usize|
        i < m.slots.len() && (#[trigger] m.slots[i as int]) is Some ==> m.free.contains(i)
    &&& forall|k: int, l: int| 0 <= k < l < m.waiters.len() ==> m.waiters[k] != m.waiters[l]
}

/// One wakeup attempt: the most recently parked context is resumed, if any.
pub open spec fn wake_step(pre: Seq<u64>, post: Seq<u64>, woken: Option<u64>) -> bool {
    match woken {
        Some(ctx) => pre.len() > 0 && ctx == pre.last() && post =~= pre.drop_last(),
        None => pre.len() == 0 && post =~= pre,
    }
}

/// The waiters left after `n` wakeup attempts.
pub open spec fn woken_n(pre: Seq<u64>, n: nat) -> Seq<u64>
    decreases n,
{
    if n == 0 || pre.len() == 0 {
        pre
    } else {
        woken_n(pre.drop_last(), (n - 1) as nat)
    }
}

/// One more wakeup attempt takes the waiters from `woken_n(pre, n)` to
/// `woken_n(pre, n + 1)`.
pub proof fn lemma_woken_n_step(
    pre: Seq<u64>,
    mid: Seq<u64>,
    post: Seq<u64>,
    n: nat,
    woken: Option<u64>,
)
    requires
        mid =~= woken_n(pre, n),
        wake_step(mid, post, woken),
    ensures
        post =~= woken_n(pre, n + 1),
    decreases n,
{
    if n == 0 || pre.len() == 0 {
        assert(woken_n(pre, n + 1) == if pre.len() == 0 {
            pre
        } else {
            woken_n(pre.drop_last(), n)
        });
    } else {
        assert(woken_n(pre, n) == woken_n(pre.drop_last(), (n - 1) as nat));
        lemma_woken_n_step(pre.drop_last(), mid, post, (n - 1) as nat, woken);
        assert(woken_n(pre, n + 1) == woken_n(pre.drop_last(), n));
    }
}

/// A successful acquisition takes the last free index and hands its slot's
/// value to the holder; the free list shrinks by that index, nothing else
/// changes.
pub open spec fn acquire_step<R>(
    pre: PoolModel<R>,
    post: PoolModel<R>,
    id: usize,
    handed: R,
) -> bool {
    &&& pool_available(pre)
    &&& id == next_id(pre)
    &&& pre.slots[id as int] == Some(handed)
    &&& post.slots =~= pre.slots.update(id as int, None::<R>)
    &&& post.free =~= pre.free.drop_last()
    &&& post.waiters =~= pre.waiters
}

/// A release stores the policy's verdict back into the held slot, frees the
/// index, and makes one wakeup attempt.
pub open spec fn release_step<R>(
    pre: PoolModel<R>,
    post: PoolModel<R>,
    id: usize,
    stored: R,
    woken: Option<u64>,
) -> bool {
    &&& id < pre.slots.len()
    &&& pre.slots[id as int] is None
    &&& post.slots =~= pre.slots.update(id as int, Some(stored))
    &&& post.free =~= pre.free.push(id)
    &&& wake_step(pre.waiters, post.waiters, woken)
}

/// An acquisition preserves well-formedness: the taken index leaves the free
/// list exactly as its slot is emptied.
pub proof fn lemma_acquire_preserves_wf<R>(
    pre: PoolModel<R>,
    post: PoolModel<R>,
    id: usize,
    handed: R,
)
    requires
        pool_wf(pre),
        acquire_step(pre, post, id, handed),
    ensures
        pool_wf(post),
{
    assert forall|k: int| 0 <= k < post.free.len() implies (#[trigger] post.free[k])
        < post.slots.len() by {
        assert(post.free[k] == pre.free[k]);
    }
    assert forall|k: int| 0 <= k < post.free.len() implies post.slots[#[trigger] post.free[k] as int]
        is Some by {
        assert(post.free[k] == pre.free[k]);
        assert(pre.free[k] != id);
        assert(post.slots[post.free[k] as int] == pre.slots[pre.free[k] as int]);
    }
    assert forall|i: usize|
        i < post.slots.len() && (#[trigger] post.slots[i as int]) is Some implies post.free.contains(
        i,
    ) by {
        assert(i != id);
        assert(pre.slots[i as int] is Some);
        let k = choose|k: int| 0 <= k < pre.free.len() && pre.free[k] == i;
        assert(k != pre.free.len() - 1);
        assert(post.free[k] == i);
    }
}

/// A release preserves well-formedness: the held index was absent from the
/// free list, so giving it back keeps the list duplicate-free and exact.
pub proof fn lemma_release_preserves_wf<R>(
    pre: PoolModel<R>,
    post: PoolModel<R>,
    id: usize,
    stored: R,
    woken: Option<u64>,
)
    requires
        pool_wf(pre),
        release_step(pre, post, id, stored, woken),
    ensures
        pool_wf(post),
{
    assert(!pre.free.contains(id)) by {
        if pre.free.contains(id) {
            let k = choose|k: int| 0 <= k < pre.free.len() && pre.free[k] == id;
            assert(pre.slots[pre.free[k] as int] is Some);
        }
    }
    let last = post.free.len() - 1;
    assert forall|k: int, l: int| 0 <= k < l < post.free.len() implies post.free[k]
        != post.free[l] by {
        if l < last {
            assert(post.free[k] == pre.free[k] && post.free[l] == pre.free[l]);
        } else {
            assert(post.free[l] == id && post.free[k] == pre.free[k]);
        }
    }
    assert forall|k: int| 0 <= k < post.free.len() implies (#[trigger] post.free[k])
        < post.slots.len() by {
        if k < last {
            assert(post.free[k] == pre.free[k]);
        }
    }
    assert forall|k: int| 0 <= k < post.free.len() implies post.slots[#[trigger] post.free[k] as int]
        is Some by {
        if k < last {
            assert(post.free[k] == pre.free[k]);
            assert(pre.free[k] != id);
            assert(post.slots[post.free[k] as int] == pre.slots[pre.free[k] as int]);
        } else {
            assert(post.free[k] == id);
        }
    }
    assert forall|i: usize|
        i < post.slots.len() && (#[trigger] post.slots[i as int]) is Some implies post.free.contains(
        i,
    ) by {
        if i == id {
            assert(post.free[last] == i);
        } else {
            assert(pre.slots[i as int] is Some);
            let k = choose|k: int| 0 <= k < pre.free.len() && pre.free[k] == i;
            assert(post.free[k] == i);
        }
    }
    assert forall|k: int, l: int| 0 <= k < l < post.waiters.len() implies post.waiters[k]
        != post.waiters[l] by {
        assert(post.waiters[k] == pre.waiters[k] && post.waiters[l] == pre.waiters[l]);
    }
}

/// A wakeup attempt alone preserves well-formedness: it only shortens the
/// waiters.
pub proof fn lemma_wake_preserves_wf<R>(pre: PoolModel<R>, post: PoolModel<R>, woken: Option<u64>)
    requires
        pool_wf(pre),
        post.slots =~= pre.slots,
        post.free =~= pre.free,
        wake_step(pre.waiters, post.waiters, woken),
    ensures
        pool_wf(post),
{
    assert forall|k: int, l: int| 0 <= k < l < post.waiters.len() implies post.waiters[k]
        != post.waiters[l] by {
        assert(post.waiters[k] == pre.waiters[k] && post.waiters[l] == pre.waiters[l]);
    }
}

/// Mutual exclusion: in a pool with one slot, a successful acquisition leaves
/// nothing to acquire, so no second holder can exist until the first
/// releases.
pub proof fn lemma_mutual_exclusion<R>(
    pre: PoolModel<R>,
    post: PoolModel<R>,
    id: usize,
    handed: R,
)
    requires
        pre.free.len() == 1,
        acquire_step(pre, post, id, handed),
    ensures
        !pool_available(post),
{
}

/// Slot exclusivity: two acquisitions with no release of the first index in
/// between hand out distinct indices, each naming a slot of the pool, so no
/// index is ever with two live holders at once.
pub proof fn lemma_slot_exclusivity<R>(
    m0: PoolModel<R>,
    m1: PoolModel<R>,
    m2: PoolModel<R>,
    i: usize,
    ri: R,
    j: usize,
    rj: R,
)
    requires
        pool_wf(m0),
        acquire_step(m0, m1, i, ri),
        acquire_step(m1, m2, j, rj),
    ensures
        i != j,
        i < m0.slots.len(),
        j < m0.slots.len(),
{
    assert(i == m0.free[m0.free.len() - 1]);
    assert(j == m1.free[m1.free.len() - 1]);
    assert(m1.free[m1.free.len() - 1] == m0.free[m0.free.len() - 2]);
}

/// After a release, the freed slot is the next one to be acquired, and the
/// next acquirer observes exactly the value the reuse pollicy stored: so a
/// slot whose holder exited, on whatever path reached the release, is
/// acquirable again.
pub proof fn lemma_release_then_acquire<R>(
    pre: PoolModel<R>,
    post: PoolModel<R>,
    id: usize,
    stored: R,
    woken: Option<u64>,
)
    requires
        release_step(pre, post, id, stored, woken),
    ensures
        pool_available(post),
        next_id(post) == id,
        next_resource(post) == stored,
{
}

/// One whole acquisition round: acquire the last free index, run the holder,
/// store what the policy decides, free the index again and make `wakes`
/// wakeup attempts. The free list comes back unchanged because the released
/// index is appended exactly where it was taken from.
pub open spec fn acquisition_round<R>(
    pre: PoolModel<R>,
    post: PoolModel<R>,
    stored: R,
    wakes: nat,
) -> bool {
    &&& pool_available(pre)
    &&& post.slots =~= pre.slots.update(next_id(pre) as int, Some(stored))
    &&& post.free =~= pre.free
    &&& post.waiters =~= woken_n(pre.waiters, wakes)
}

/// Defines the behaviour of a resource pool.
///
/// The pool enforces mutual exclusion per slot: the `usize` handed to the
/// closure is the slot's id in the pool, and the resource value travels to the
/// holder by move, back into the pool through the bound reuse policy.
pub trait ResourcePool: Sized {
    /// The type of resource in this resource pool.
    type Resource;

    /// The externally observable state.
    spec fn model(&self) -> PoolModel<Self::Resource>;

    /// The pool's own well-formedness, implying `pool_wf` of the model.
    spec fn wf(&self) -> bool;

    /// What the bound reuse policy may store back when the holder left `left`.
    spec fn stores(left: Self::Resource, stored: Self::Resource) -> bool;

    /// How many wakeup attempts one acquisition round makes.
    spec fn round_wakes() -> nat;

    /// Gets a resource from the resource pool, running `f` on the acquired
    /// slot's id and value; what `f` returns goes through the reuse policy and
    /// back into the slot, and waiters are woken.
    ///
    /// A pool with no free slot would leave the caller parked until some other
    /// context releases; within one sequential context no release can
    /// intervene, so that state is excluded here and the embedding's retry
    /// loop stands around `enqueue_waiter` and the access steps instead.
    fn get_resource<F: FnOnce(usize, Self::Resource) -> Self::Resource>(&mut self, f: F)
        requires
            old(self).wf(),
            pool_available(old(self).model()),
            call_requires(f, (next_id(old(self).model()), next_resource(old(self).model()))),
        ensures
            final(self).wf(),
            exists|left: Self::Resource, stored: Self::Resource|
                {
                    &&& #[trigger] call_ensures(
                        f,
                        (next_id(old(self).model()), next_resource(old(self).model())),
                        left,
                    )
                    &&& #[trigger] Self::stores(left, stored)
                    &&& acquisition_round(
                        old(self).model(),
                        final(self).model(),
                        stored,
                        Self::round_wakes(),
                    )
                },
    ;

    /// A non blocking equivalent of `get_resource`: when no slot is free it
    /// returns `false` at once, without running the closure and without
    /// touching the pool.
    fn try_get_resource<F: FnOnce(usize, Self::Resource) -> Self::Resource>(
        &mut self,
        f: F,
    ) -> (r: bool)
        requires
            old(self).wf(),
            pool_available(old(self).model()) ==> call_requires(
                f,
                (next_id(old(self).model()), next_resource(old(self).model())),
            ),
        ensures
            final(self).wf(),
            r == pool_available(old(self).model()),
            !r ==> final(self).model() =~= old(self).model(),
            r ==> exists|left: Self::Resource, stored: Self::Resource|
                {
                    &&& #[trigger] call_ensures(
                        f,
                        (next_id(old(self).model()), next_resource(old(self).model())),
                        left,
                    )
                    &&& #[trigger] Self::stores(left, stored)
                    &&& acquisition_round(
                        old(self).model(),
                        final(self).model(),
                        stored,
                        Self::round_wakes(),
                    )
                },
    ;
}

/// Tags a type as a valid resource.
pub trait Resource: Sized {
    /// The values a fresh construction may produce.
    spec fn is_fresh(&self) -> bool;

    /// Creates a new instance of the resource.
    fn new() -> (r: Self)
        ensures
            r.is_fresh(),
    ;
}

/// A resource with a constant initial value, so a pool over it can be set up
/// with no value-dependent runtime initialization.
pub trait ConstResource: Resource {
    /// The initial value.
    fn init() -> (r: Self)
        ensures
            r.is_fresh(),
    ;
}

} // verus!
