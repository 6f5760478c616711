use bottleneck::pollicy::{NoReuse, Pollicy, Reuse};
use bottleneck::{ConstResource, MultiResource, Resource, ResourcePool, SingleResource, SyncStack};

#[test]
fn test_single_resource() {
    let mut resource = SingleResource::<i32, Reuse>::new();

    resource.get_resource(|_, _r| 1);
    resource.get_resource(|_, r| {
        assert_eq!(r, 1);
        r
    });

    let mut resource = SingleResource::<i32, NoReuse>::new();

    resource.get_resource(|_, _r| 1);
    resource.get_resource(|_, r| {
        assert_eq!(r, 0);
        r
    });
}

#[test]
fn try_get_while_held_returns_false_and_skips_closure() {
    let mut pool = SingleResource::<u32, Reuse>::with_resource(7);
    let (id, value) = pool.begin_access().unwrap();
    assert_eq!(id, 0);
    assert_eq!(value, 7);

    let mut ran = false;
    let ok = pool.try_get_resource(|_, r| {
        ran = true;
        r
    });
    assert!(!ok);
    assert!(!ran);

    let woken = pool.end_access(value + 1);
    assert_eq!(woken, None);

    let mut observed = None;
    let ok = pool.try_get_resource(|i, r| {
        observed = Some((i, r));
        r
    });
    assert!(ok);
    assert_eq!(observed, Some((0, 8)));
}

#[test]
fn single_resource_mutual_exclusion() {
    let mut pool = SingleResource::<u8, Reuse>::with_resource(1);
    let (_, value) = pool.begin_access().unwrap();
    assert!(pool.begin_access().is_none());
    assert!(pool.begin_access().is_none());
    pool.end_access(value);
    let (_, value) = pool.begin_access().unwrap();
    assert_eq!(value, 1);
    pool.end_access(value);
}

#[test]
fn multi_resource_slot_exclusivity() {
    let mut pool = MultiResource::<u64, Reuse>::new_resources(3);
    let (i, a) = pool.begin_access().unwrap();
    let (j, b) = pool.begin_access().unwrap();
    let (k, c) = pool.begin_access().unwrap();
    assert_ne!(i, j);
    assert_ne!(i, k);
    assert_ne!(j, k);
    assert!(i < 3 && j < 3 && k < 3);
    assert!(pool.begin_access().is_none());
    pool.end_access(i, a);
    pool.end_access(j, b);
    pool.end_access(k, c);
    let (l, d) = pool.begin_access().unwrap();
    pool.end_access(l, d);
}

#[test]
fn reuse_policy_keeps_the_left_value() {
    let mut pool = SingleResource::<i64, Reuse>::with_resource(5);
    pool.get_resource(|_, _r| 41);
    pool.get_resource(|_, r| {
        assert_eq!(r, 41);
        r
    });
}

#[test]
fn no_reuse_policy_stores_a_fresh_value() {
    let mut pool = MultiResource::<i32, NoReuse>::with_resources(vec![8]);
    pool.get_resource(|_, r| {
        assert_eq!(r, 8);
        999
    });
    pool.get_resource(|_, r| {
        assert_eq!(r, 0);
        r
    });
}

#[test]
fn predicate_policy_decides_keep_or_replace() {
    let mut pool = SingleResource::<i32, Pollicy<Reuse>>::new();
    pool.get_resource(|_, _r| 5);
    pool.get_resource(|_, r| {
        assert_eq!(r, 5);
        r
    });

    let mut pool = SingleResource::<i32, Pollicy<NoReuse>>::new();
    pool.get_resource(|_, _r| 5);
    pool.get_resource(|_, r| {
        assert_eq!(r, 0);
        r
    });
}

#[test]
fn failed_holder_leaves_slot_acquirable_and_policy_ran() {
    let mut pool = SingleResource::<u32, NoReuse>::with_resource(3);
    let (_, _abandoned) = pool.begin_access().unwrap();
    // the holder's work is abandoned; the release path still runs the
    // always-replace pollicy on whatever value it is handed
    pool.end_access(9999);
    let (_, value) = pool.begin_access().unwrap();
    assert_eq!(value, 0);
    pool.end_access(value);
}

#[test]
fn parked_waiters_resume_lifo_within_one_round() {
    let mut pool = SingleResource::<u32, Reuse>::with_resource(0);
    let (_, held) = pool.begin_access().unwrap();
    pool.enqueue_waiter(7);
    pool.enqueue_waiter(9);
    // first release resumes the most recently parked waiter
    assert_eq!(pool.end_access(held), Some(9));
    // the resumed waiter acquires and releases; its release resumes the other
    let (_, held) = pool.begin_access().unwrap();
    assert_eq!(pool.end_access(held), Some(7));
    // both waiters were resumed within one round of releases
    let (_, held) = pool.begin_access().unwrap();
    assert_eq!(pool.end_access(held), None);
}

#[test]
fn multi_resource_wakes_a_waiter_per_release() {
    let mut pool = MultiResource::<u8, Reuse>::new_resources(1);
    let (id, value) = pool.begin_access().unwrap();
    pool.enqueue_waiter(42);
    assert_eq!(pool.end_access(id, value), Some(42));
}

#[test]
fn multi_resource_rounds_take_the_last_free_index() {
    let mut pool = MultiResource::<usize, Reuse>::with_resources(vec![10, 20, 30]);
    let mut seen = None;
    pool.get_resource(|i, r| {
        seen = Some((i, r));
        r + 1
    });
    assert_eq!(seen, Some((2, 30)));
    // the released index went back where it was taken from, so the next
    // round acquires the same slot, with the value the holder left
    pool.get_resource(|i, r| {
        assert_eq!((i, r), (2, 31));
        r
    });
}

#[test]
fn multi_resource_try_fails_on_an_empty_pool() {
    let mut pool = MultiResource::<u8, Reuse>::new_resources(0);
    let mut ran = false;
    let ok = pool.try_get_resource(|_, r| {
        ran = true;
        r
    });
    assert!(!ok);
    assert!(!ran);
}

#[test]
fn sync_stack_pops_most_recent_first() {
    let mut stack = SyncStack::new();
    stack.push(1);
    stack.push(2);
    stack.push(3);
    assert_eq!(stack.pop(), Some(3));
    assert_eq!(stack.pop(), Some(2));
    stack.push(4);
    assert_eq!(stack.pop(), Some(4));
    assert_eq!(stack.pop(), Some(1));
    assert_eq!(stack.pop(), None);
}

#[test]
fn fresh_resources_are_zero_or_empty() {
    assert_eq!(<i32 as Resource>::new(), 0);
    assert_eq!(<u64 as Resource>::new(), 0);
    assert_eq!(<u8 as ConstResource>::init(), 0);
    assert_eq!(<i128 as ConstResource>::init(), 0);
    let v = <Vec<u8> as Resource>::new();
    assert!(v.is_empty());
    let v = <Vec<i32> as ConstResource>::init();
    assert!(v.is_empty());
}
