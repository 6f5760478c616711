//! A pool that guards multiple resource instances and provides mutual
//! exclusion to each of them.

use core::marker::PhantomData;
use vstd::pervasive::VecAdditionalExecFns;
use vstd::prelude::*;

use crate::pollicy::{policy_relates, Reuse, ReusePollicy};
use crate::single_resource::SingleResource;
use crate::sync_stack::SyncStack;
use crate::{
    acquire_step, acquisition_round, lemma_acquire_preserves_wf, lemma_release_preserves_wf,
    lemma_woken_n_step, next_id, next_resource, pool_available, pool_wf, release_step, PoolModel,
    Resource, ResourcePool,
};

verus! {

/// Stores multiple resource instances and provides mutual exclusion to all of
/// them.
///
/// The free slot indices live in a list guarded by a nested single-resource
/// pool: the bookkeeping's own mutual exclusion is a short recursive instance
/// of the same primitive, not a second bespoke lock. At any instant a pool is
/// observable, the list holds exactly the indices of the slots no holder has
/// checked out.
pub struct MultiResource<R, P = Reuse> {
    /// The slots; `None` marks one checked out by a holder.
    resources: Vec<Option<R>>,
    /// The indexes of the resources not currently in use.
    available_resources: SingleResource<Vec<usize>, Reuse>,
    /// A stack of contexts waiting to access a resource.
    sync_stack: SyncStack,
    _pollicy: PhantomData<P>,
}

impl<R, P> MultiResource<R, P> {
    /// The slots, `None` where a holder has one checked out.
    pub closed spec fn slots_view(&self) -> Seq<Option<R>> {
        self.resources@
    }

    /// The indices on the free list; meaningful while the bookkeeping is at
    /// rest.
    pub closed spec fn free_ids(&self) -> Seq<usize> {
        self.available_resources.resource_view()@
    }

    /// The parked waiters, the most recently parked last.
    pub closed spec fn waiters(&self) -> Seq<u64> {
        self.sync_stack@
    }

    /// The nested pool guarding the free-index list is between accesses: no
    /// holder, no waiter. Every operation here takes that lock only within one
    /// call, so the pool is at rest whenever it is observable.
    pub closed spec fn free_list_at_rest(&self) -> bool {
        &&& !self.available_resources.in_use()
        &&& self.available_resources.waiters() == Seq::<u64>::empty()
    }
}

impl<R: Resource, P: ReusePollicy<R>> MultiResource<R, P> {
    /// Creates a new resource pool.
    ///
    /// # Param
    ///
    /// resources --- The `Resource`s to use.
    pub fn with_resources(resources: Vec<R>) -> (pool: Self)
        ensures
            pool.wf(),
            pool.model().slots.len() == resources@.len(),
            forall|i: int| 0 <= i < resources@.len() ==> pool.model().slots[i] == Some(
                resources@[i],
            ),
            pool.model().free =~= Seq::new(resources@.len(), |i: int| i as usize),
            pool.model().waiters == Seq::<u64>::empty(),
    {
        let ghost rs = resources@;
        let mut rest = resources;
        let mut slots: Vec<Option<R>> = Vec::new();
        while rest.len() > 0
            invariant
                slots@.len() + rest@.len() == rs.len(),
                forall|i: int| 0 <= i < slots@.len() ==> slots@[i] == Some(rs[i]),
                forall|j: int| 0 <= j < rest@.len() ==> rest@[j] == rs[slots@.len() + j],
            decreases rest@.len(),
        {
            let v = rest.remove(0);
            slots.push(Some(v));
        }
        let n = slots.len();
        let mut ids: Vec<usize> = Vec::new();
        let mut i: usize = 0;
        while i < n
            invariant
                i <= n,
                ids@.len() == i,
                forall|k: int| 0 <= k < i ==> ids@[k] == k as usize,
            decreases n - i,
        {
            ids.push(i);
            i = i + 1;
        }
        let pool = MultiResource {
            resources: slots,
            available_resources: SingleResource::with_resource(ids),
            sync_stack: SyncStack::new(),
            _pollicy: PhantomData,
        };
        proof {
            let m = pool.model();
            assert forall|j: usize| j < m.slots.len() && (#[trigger] m.slots[j as int])
                is Some implies m.free.contains(j) by {
                assert(m.free[j as int] == j);
            }
        }
        pool
    }

    /// Creates a new resource pool of `count` freshly constructed elements.
    pub fn new_resources(count: usize) -> (pool: Self)
        ensures
            pool.wf(),
            pool.model().slots.len() == count,
            forall|i: int|
                0 <= i < count ==> ((#[trigger] pool.model().slots[i]) matches Some(r)
                    && r.is_fresh()),
            pool.model().free =~= Seq::new(count as nat, |i: int| i as usize),
            pool.model().waiters == Seq::<u64>::empty(),
    {
        let mut fresh: Vec<R> = Vec::new();
        while fresh.len() < count
            invariant
                fresh@.len() <= count,
                forall|i: int| 0 <= i < fresh@.len() ==> (#[trigger] fresh@[i]).is_fresh(),
            decreases count - fresh@.len(),
        {
            fresh.push(R::new());
        }
        Self::with_resources(fresh)
    }

    /// Begin exclusive access: one attempt to check a slot out, popping its
    /// index from the free list. Hands back the slot's id and value when one
    /// was free, `None` when every slot has a holder.
    ///
    /// Every access that begins here must end with [`Self::end_access`], on
    /// every exit path of the holder, so that the slot becomes acquirable
    /// again and a waiter is woken.
    pub fn begin_access(&mut self) -> (r: Option<(usize, R)>)
        requires
            old(self).wf(),
        ensures
            final(self).wf(),
            match r {
                None => !pool_available(old(self).model()) && final(self).model() =~= old(
                    self,
                ).model(),
                Some((id, handed)) => acquire_step(
                    old(self).model(),
                    final(self).model(),
                    id,
                    handed,
                ),
            },
    {
        let ghost pre = *self;
        let mut ids = self.take_free_list();
        match ids.pop() {
            None => {
                // every slot has a holder: put the (empty) list back
                self.put_free_list(ids);
                proof {
                    assert(self.model() =~= pre.model());
                }
                None
            },
            Some(id) => {
                self.put_free_list(ids);
                proof {
                    assert(id == pre.model().free.last());
                    assert(id < self.resources@.len());
                    assert(pre.model().slots[id as int] is Some);
                }
                let mut taken: Option<R> = None;
                self.resources.set_and_swap(id, &mut taken);
                let value = match taken {
                    Some(value) => value,
                    // the slot of a free index always holds a value
                    None => R::new(),
                };
                proof {
                    assert(acquire_step(pre.model(), self.model(), id, value));
                    lemma_acquire_preserves_wf(pre.model(), self.model(), id, value);
                }
                Some((id, value))
            },
        }
    }

    /// Takes the free-index list out of the nested pool. The nested pool is at
    /// rest, so the one acquisition attempt succeeds and no bounded spin is
    /// needed within one sequential context.
    fn take_free_list(&mut self) -> (ids: Vec<usize>)
        requires
            old(self).free_list_at_rest(),
        ensures
            ids@ == old(self).free_ids(),
            final(self).slots_view() == old(self).slots_view(),
            final(self).waiters() == old(self).waiters(),
            final(self).available_resources.in_use(),
            final(self).available_resources.waiters() == Seq::<u64>::empty(),
    {
        match self.available_resources.begin_access() {
            Some((_, ids)) => ids,
            // the nested pool is at rest, so this cannot be reached
            None => Vec::new(),
        }
    }

    /// Gives the free-index list back to the nested pool, whose always-keep
    /// pollicy stores it unchanged, leaving the bookkeeping at rest again.
    fn put_free_list(&mut self, ids: Vec<usize>)
        requires
            old(self).available_resources.in_use(),
            old(self).available_resources.waiters() == Seq::<u64>::empty(),
        ensures
            final(self).free_list_at_rest(),
            final(self).free_ids() == ids@,
            final(self).slots_view() == old(self).slots_view(),
            final(self).waiters() == old(self).waiters(),
    {
        let ghost nm_pre = self.available_resources.model();
        let woken = self.available_resources.end_access(ids);
        proof {
            let stored = choose|stored: Vec<usize>|
                #[trigger] policy_relates::<Vec<usize>, Reuse>(ids, stored) && release_step(
                    nm_pre,
                    self.available_resources.model(),
                    0,
                    stored,
                    woken,
                );
            assert(stored == ids);
            assert(self.available_resources.model().slots[0] == Some(stored));
            assert(!self.available_resources.in_use());
            assert(self.available_resources.resource_view() == stored);
        }
    }

    /// End exclusive access to slot `id`: the reuse pollicy decides what the
    /// slot stores next, the index goes back onto the free list, and one
    /// wakeup attempt is made. Returns the context to resume, if one was
    /// parked.
    pub fn end_access(&mut self, id: usize, left: R) -> (woken: Option<u64>)
        requires
            old(self).wf(),
            id < old(self).model().slots.len(),
            old(self).model().slots[id as int] is None,
        ensures
            final(self).wf(),
            exists|stored: R|
                #[trigger] policy_relates::<R, P>(left, stored) && release_step(
                    old(self).model(),
                    final(self).model(),
                    id,
                    stored,
                    woken,
                ),
    {
        let ghost pre = *self;
        let mut value = left;
        let keep = P::reuse(&mut value);
        if !keep {
            value = R::new();
        }
        let ghost stored = value;
        self.resources.set(id, Some(value));
        // give the index back to the free list
        let mut ids = self.take_free_list();
        ids.push(id);
        self.put_free_list(ids);
        let woken = self.sync_stack.pop();
        proof {
            assert(policy_relates::<R, P>(left, stored) && release_step(
                pre.model(),
                self.model(),
                id,
                stored,
                woken,
            ));
            lemma_release_preserves_wf(pre.model(), self.model(), id, stored, woken);
        }
        woken
    }

    /// Parks the context `ctx` on this pool's wait stack, for a later release
    /// to resume. The embedding blocks the context after recording it here.
    pub fn enqueue_waiter(&mut self, ctx: u64)
        requires
            !old(self).model().waiters.contains(ctx),
        ensures
            old(self).wf() ==> final(self).wf(),
            final(self).model() =~= (PoolModel {
                waiters: old(self).model().waiters.push(ctx),
                ..old(self).model()
            }),
    {
        self.sync_stack.push(ctx);
    }

    /// Attempts to aquire a resource and run the closure.
    ///
    /// If no resource could be locked the closure is returned.
    fn attempt_aquire<F: FnOnce(usize, R) -> R>(&mut self, f: F) -> (r: Option<F>)
        requires
            old(self).wf(),
            pool_available(old(self).model()) ==> call_requires(
                f,
                (next_id(old(self).model()), next_resource(old(self).model())),
            ),
        ensures
            final(self).wf(),
            match r {
                Some(g) => {
                    &&& g == f
                    &&& final(self).model() =~= old(self).model()
                    &&& !pool_available(old(self).model())
                },
                None => pool_available(old(self).model()) && exists|left: R, stored: R|
                    {
                        &&& #[trigger] call_ensures(
                            f,
                            (next_id(old(self).model()), next_resource(old(self).model())),
                            left,
                        )
                        &&& #[trigger] policy_relates::<R, P>(left, stored)
                        &&& acquisition_round(old(self).model(), final(self).model(), stored, 1)
                    },
            },
    {
        let ghost pre = *self;
        match self.begin_access() {
            None => Some(f),
            Some((id, value)) => {
                let ghost handed = value;
                let left = f(id, value);
                let ghost mid = *self;
                let woken = self.end_access(id, left);
                proof {
                    let stored = choose|stored: R|
                        #[trigger] policy_relates::<R, P>(left, stored) && release_step(
                            mid.model(),
                            self.model(),
                            id,
                            stored,
                            woken,
                        );
                    assert(id == next_id(pre.model()) && handed == next_resource(pre.model()));
                    assert(call_ensures(
                        f,
                        (next_id(pre.model()), next_resource(pre.model())),
                        left,
                    ));
                    assert(self.model().slots =~= pre.model().slots.update(
                        next_id(pre.model()) as int,
                        Some(stored),
                    ));
                    assert(self.model().free =~= pre.model().free);
                    lemma_woken_n_step(
                        pre.model().waiters,
                        mid.model().waiters,
                        self.model().waiters,
                        0,
                        woken,
                    );
                    assert(acquisition_round(pre.model(), self.model(), stored, 1));
                }
                None
            },
        }
    }
}

impl<R: Resource, P: ReusePollicy<R>> ResourcePool for MultiResource<R, P> {
    type Resource = R;

    /// The pool as observed from outside: its slots, the free indices, and
    /// the parked waiters.
    open spec fn model(&self) -> PoolModel<R> {
        PoolModel { slots: self.slots_view(), free: self.free_ids(), waiters: self.waiters() }
    }

    open spec fn wf(&self) -> bool {
        pool_wf(self.model()) && self.free_list_at_rest()
    }

    open spec fn stores(left: R, stored: R) -> bool {
        policy_relates::<R, P>(left, stored)
    }

    /// Each release frees one slot, so each acquisition round makes one
    /// wakeup attempt.
    open spec fn round_wakes() -> nat {
        1
    }

    fn try_get_resource<F: FnOnce(usize, R) -> R>(&mut self, f: F) -> (r: bool) {
        let ghost pre = *self;
        match self.attempt_aquire(f) {
            None => {
                proof {
                    let (left, stored) = choose|left: R, stored: R|
                        {
                            &&& #[trigger] call_ensures(
                                f,
                                (next_id(pre.model()), next_resource(pre.model())),
                                left,
                            )
                            &&& #[trigger] policy_relates::<R, P>(left, stored)
                            &&& acquisition_round(pre.model(), self.model(), stored, 1)
                        };
                    assert(Self::stores(left, stored));
                    assert(acquisition_round(
                        pre.model(),
                        self.model(),
                        stored,
                        Self::round_wakes(),
                    ));
                }
                true
            },
            Some(_) => false,
        }
    }

    fn get_resource<F: FnOnce(usize, R) -> R>(&mut self, f: F) {
        let ghost pre = *self;
        match self.attempt_aquire(f) {
            None => {
                proof {
                    let (left, stored) = choose|left: R, stored: R|
                        {
                            &&& #[trigger] call_ensures(
                                f,
                                (next_id(pre.model()), next_resource(pre.model())),
                                left,
                            )
                            &&& #[trigger] policy_relates::<R, P>(left, stored)
                            &&& acquisition_round(pre.model(), self.model(), stored, 1)
                        };
                    assert(Self::stores(left, stored));
                    assert(acquisition_round(
                        pre.model(),
                        self.model(),
                        stored,
                        Self::round_wakes(),
                    ));
                }
            },
            // a free slot is required, and within one sequential context
            // nothing can check it out between entry and the attempt, so the
            // attempt cannot fail
            Some(_) => {},
        }
    }
}

} // verus!
