//! A pool that guards exactly one resource instance.

use core::marker::PhantomData;
use vstd::prelude::*;

use crate::pollicy::{policy_relates, Reuse, ReusePollicy};
use crate::sync_stack::SyncStack;
use crate::{
    acquire_step, acquisition_round, lemma_acquire_preserves_wf, lemma_release_preserves_wf,
    lemma_wake_preserves_wf, lemma_woken_n_step, next_id, next_resource, pool_available, pool_wf,
    release_step, PoolModel, Resource, ResourcePool,
};

verus! {

/// Stores a single resource and forces all execution contexts to access it one
/// at a time.
///
/// The slot is checked out exactly while the field holds `None`: the holder
/// owns the value for the duration of its access, and the bound reuse pollicy
/// decides at release what the slot stores next.
pub struct SingleResource<R, P = Reuse> {
    /// The resource instance; `None` while a holder has it checked out.
    resource: Option<R>,
    /// A stack of contexts waiting to access this resource.
    sync_stack: SyncStack,
    _pollicy: PhantomData<P>,
}

impl<R, P> SingleResource<R, P> {
    /// True while a holder has the resource checked out.
    pub closed spec fn in_use(&self) -> bool {
        self.resource is None
    }

    /// The value the slot holds; meaningful while no holder has it checked
    /// out.
    pub closed spec fn resource_view(&self) -> R {
        self.resource->0
    }

    /// The parked waiters, the most recently parked last.
    pub closed spec fn waiters(&self) -> Seq<u64> {
        self.sync_stack@
    }

}

impl<R: Resource, P: ReusePollicy<R>> SingleResource<R, P> {
    /// Creates a new resource pool.
    ///
    /// # Param
    ///
    /// resource --- The `Resource` to use.
    pub fn with_resource(resource: R) -> (pool: Self)
        ensures
            pool.wf(),
            !pool.in_use(),
            pool.resource_view() == resource,
            pool.waiters() == Seq::<u64>::empty(),
    {
        let pool = SingleResource {
            resource: Some(resource),
            sync_stack: SyncStack::new(),
            _pollicy: PhantomData,
        };
        proof {
            let m = pool.model();
            assert forall|j: usize| j < m.slots.len() && (#[trigger] m.slots[j as int])
                is Some implies m.free.contains(j) by {
                assert(m.free[0] == 0usize);
            }
        }
        pool
    }

    /// Creates a new resource pool around a freshly constructed resource.
    pub fn new() -> (pool: Self)
        ensures
            pool.wf(),
            !pool.in_use(),
            pool.resource_view().is_fresh(),
            pool.waiters() == Seq::<u64>::empty(),
    {
        Self::with_resource(R::new())
    }

    /// Begin exclusive access: one attempt to check the resource out. Hands
    /// back the slot's id and value when the slot was free, `None` (leaving
    /// the pool untouched) when another holder has it.
    ///
    /// Every access that begins here must end with [`Self::end_access`], on
    /// every exit path of the holder, so that the slot becomes acquirable
    /// again and a waiter is woken.
    pub fn begin_access(&mut self) -> (r: Option<(usize, R)>)
        ensures
            old(self).wf() ==> final(self).wf(),
            match r {
                None => !pool_available(old(self).model()) && *final(self) == *old(self),
                Some((id, handed)) => acquire_step(
                    old(self).model(),
                    final(self).model(),
                    id,
                    handed,
                ),
            },
    {
        let ghost pre = *self;
        let r = match self.resource.take() {
            None => None,
            Some(value) => Some((0usize, value)),
        };
        proof {
            if pre.wf() && r is Some {
                let (id, handed) = r->0;
                lemma_acquire_preserves_wf(pre.model(), self.model(), id, handed);
            }
        }
        r
    }

    /// End exclusive access: the reuse pollicy decides what the slot stores
    /// next, the slot becomes acquirable again, and one wakeup attempt is
    /// made. Returns the context to resume, if one was parked.
    pub fn end_access(&mut self, resource: R) -> (woken: Option<u64>)
        requires
            !pool_available(old(self).model()),
        ensures
            old(self).wf() ==> final(self).wf(),
            exists|stored: R|
                #[trigger] policy_relates::<R, P>(resource, stored) && release_step(
                    old(self).model(),
                    final(self).model(),
                    0,
                    stored,
                    woken,
                ),
    {
        let ghost pre = *self;
        let mut value = resource;
        let keep = P::reuse(&mut value);
        if !keep {
            value = R::new();
        }
        let ghost stored = value;
        self.resource = Some(value);
        let woken = self.sync_stack.pop();
        proof {
            assert(policy_relates::<R, P>(resource, stored) && release_step(
                pre.model(),
                self.model(),
                0,
                stored,
                woken,
            ));
            if pre.wf() {
                lemma_release_preserves_wf(pre.model(), self.model(), 0, stored, woken);
            }
        }
        woken
    }

    /// Parks the context `ctx` on this pool's wait stack, for a later release
    /// to resume. The embedding blocks the context after recording it here.
    pub fn enqueue_waiter(&mut self, ctx: u64)
        requires
            !old(self).model().waiters.contains(ctx),
        ensures
            old(self).wf() ==> final(self).wf(),
            final(self).model() =~= (PoolModel {
                waiters: old(self).model().waiters.push(ctx),
                ..old(self).model()
            }),
    {
        self.sync_stack.push(ctx);
    }

    /// Attempts to aquire the resource and run the closure.
    ///
    /// If the resource could not be locked the closure is returned.
    fn attempt_aquire<F: FnOnce(usize, R) -> R>(&mut self, f: F) -> (r: Option<F>)
        requires
            old(self).wf(),
            pool_available(old(self).model()) ==> call_requires(
                f,
                (next_id(old(self).model()), next_resource(old(self).model())),
            ),
        ensures
            final(self).wf(),
            match r {
                Some(g) => {
                    &&& g == f
                    &&& *final(self) == *old(self)
                    &&& !pool_available(old(self).model())
                },
                None => pool_available(old(self).model()) && exists|left: R, stored: R|
                    {
                        &&& #[trigger] call_ensures(
                            f,
                            (next_id(old(self).model()), next_resource(old(self).model())),
                            left,
                        )
                        &&& #[trigger] policy_relates::<R, P>(left, stored)
                        &&& acquisition_round(old(self).model(), final(self).model(), stored, 1)
                    },
            },
    {
        let ghost pre = *self;
        match self.begin_access() {
            None => Some(f),
            Some((id, value)) => {
                let ghost handed = value;
                let left = f(id, value);
                let ghost mid = *self;
                let woken = self.end_access(left);
                proof {
                    let stored = choose|stored: R|
                        #[trigger] policy_relates::<R, P>(left, stored) && release_step(
                            mid.model(),
                            self.model(),
                            0,
                            stored,
                            woken,
                        );
                    assert(next_id(pre.model()) == 0 && next_resource(pre.model()) == handed);
                    assert(call_ensures(
                        f,
                        (next_id(pre.model()), next_resource(pre.model())),
                        left,
                    ));
                    assert(self.model().slots =~= pre.model().slots.update(
                        next_id(pre.model()) as int,
                        Some(stored),
                    ));
                    assert(self.model().free =~= pre.model().free);
                    lemma_woken_n_step(
                        pre.model().waiters,
                        mid.model().waiters,
                        self.model().waiters,
                        0,
                        woken,
                    );
                    assert(acquisition_round(pre.model(), self.model(), stored, 1));
                }
                None
            },
        }
    }
}

impl<R: Resource, P: ReusePollicy<R>> ResourcePool for SingleResource<R, P> {
    type Resource = R;

    /// The single slot as a pool model: slot 0, free exactly while no holder
    /// has it checked out.
    open spec fn model(&self) -> PoolModel<R> {
        PoolModel {
            slots: seq![
                if self.in_use() {
                    None
                } else {
                    Some(self.resource_view())
                },
            ],
            free: if self.in_use() {
                Seq::<usize>::empty()
            } else {
                seq![0usize]
            },
            waiters: self.waiters(),
        }
    }

    open spec fn wf(&self) -> bool {
        pool_wf(self.model())
    }

    open spec fn stores(left: R, stored: R) -> bool {
        policy_relates::<R, P>(left, stored)
    }

    /// A release makes one wakeup attempt, and both entry points add one more:
    /// an acquirer that succeeded at once never parked, so it proactively
    /// gives a concurrently parking waiter its chance.
    open spec fn round_wakes() -> nat {
        2
    }

    fn try_get_resource<F: FnOnce(usize, R) -> R>(&mut self, f: F) -> (r: bool) {
        let ghost pre = *self;
        match self.attempt_aquire(f) {
            None => {
                let ghost mid = *self;
                let woken = self.sync_stack.pop();
                proof {
                    let (left, stored) = choose|left: R, stored: R|
                        {
                            &&& #[trigger] call_ensures(
                                f,
                                (next_id(pre.model()), next_resource(pre.model())),
                                left,
                            )
                            &&& #[trigger] policy_relates::<R, P>(left, stored)
                            &&& acquisition_round(pre.model(), mid.model(), stored, 1)
                        };
                    lemma_woken_n_step(
                        pre.model().waiters,
                        mid.model().waiters,
                        self.model().waiters,
                        1,
                        woken,
                    );
                    lemma_wake_preserves_wf(mid.model(), self.model(), woken);
                    assert(Self::stores(left, stored));
                    assert(acquisition_round(
                        pre.model(),
                        self.model(),
                        stored,
                        Self::round_wakes(),
                    ));
                }
                true
            },
            Some(_) => false,
        }
    }

    fn get_resource<F: FnOnce(usize, R) -> R>(&mut self, f: F) {
        let ghost pre = *self;
        match self.attempt_aquire(f) {
            None => {
                let ghost mid = *self;
                let woken = self.sync_stack.pop();
                proof {
                    let (left, stored) = choose|left: R, stored: R|
                        {
                            &&& #[trigger] call_ensures(
                                f,
                                (next_id(pre.model()), next_resource(pre.model())),
                                left,
                            )
                            &&& #[trigger] policy_relates::<R, P>(left, stored)
                            &&& acquisition_round(pre.model(), mid.model(), stored, 1)
                        };
                    lemma_woken_n_step(
                        pre.model().waiters,
                        mid.model().waiters,
                        self.model().waiters,
                        1,
                        woken,
                    );
                    lemma_wake_preserves_wf(mid.model(), self.model(), woken);
                    assert(Self::stores(left, stored));
                    assert(acquisition_round(
                        pre.model(),
                        self.model(),
                        stored,
                        Self::round_wakes(),
                    ));
                }
            },
            // a free slot is required, and within one sequential context
            // nothing can check it out between entry and the attempt, so the
            // attempt cannot fail
            Some(_) => {},
        }
    }
}

} // verus!
