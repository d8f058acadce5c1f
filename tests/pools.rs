use service_demo::affinity::{AffinityPool, BindPlan, IDLE_EVICTION_MS};
use service_demo::pool::FreeList;

#[test]
fn fixed_pool_hands_out_each_worker_once() {
    let mut p = FreeList::new(2);
    assert_eq!(p.size(), 2);
    assert!(!p.is_one_shot());
    let a = p.take().unwrap();
    let b = p.take().unwrap();
    assert_ne!(a, b);
    assert_eq!(p.take(), None);
    assert!(p.put_back(a));
    assert!(!p.put_back(a));
    assert!(!p.put_back(7));
    assert_eq!(p.take(), Some(a));
    assert!(p.put_back(a));
    assert!(p.put_back(b));
    assert_eq!(p.free_count(), 2);
}

#[test]
fn timed_out_caller_loses_no_worker() {
    let mut p = FreeList::new(1);
    let w = p.take().unwrap();
    // a second caller finds nothing free and gives up
    assert_eq!(p.take(), None);
    assert!(p.put_back(w));
    assert_eq!(p.take(), Some(w));
}

#[test]
fn size_zero_pools_are_one_shot() {
    let p = FreeList::new(0);
    assert!(p.is_one_shot());
    let mut q = AffinityPool::new(0, 0);
    assert_eq!(q.plan_bind(&"s".to_owned(), 1), BindPlan::OneShot);
}

#[test]
fn session_keeps_its_worker() {
    let mut q = AffinityPool::new(2, 0);
    let sid = "s1".to_owned();
    assert_eq!(q.plan_bind(&sid, 5), BindPlan::Acquire);
    let w = q.take_free().unwrap();
    assert!(q.record(sid.clone(), w, 5));
    assert_eq!(q.plan_bind(&sid, 6), BindPlan::Reuse(w));
    assert_eq!(q.plan_bind(&"s2".to_owned(), 6), BindPlan::Acquire);
    let w2 = q.take_free().unwrap();
    assert_ne!(w, w2);
    assert!(!q.record(sid.clone(), w2, 6));
    assert!(q.record("s2".to_owned(), w2, 6));
    assert_eq!(q.take_free(), None);
}

#[test]
fn unbind_returns_worker_and_is_idempotent() {
    let mut q = AffinityPool::new(1, 0);
    let sid = "s".to_owned();
    assert_eq!(q.unbind(&"never".to_owned()), None);
    let w = q.take_free().unwrap();
    assert!(q.record(sid.clone(), w, 1));
    assert_eq!(q.unbind(&sid), Some(w));
    assert_eq!(q.unbind(&sid), None);
    assert_eq!(q.plan_bind(&sid, 2), BindPlan::Acquire);
    assert_eq!(q.take_free(), Some(w));
    assert!(!q.put_back(5));
    assert!(q.put_back(w));
    assert!(!q.put_back(w));
}

#[test]
fn idle_sessions_are_found() {
    let mut q = AffinityPool::new(3, 0);
    let a = q.take_free().unwrap();
    assert!(q.record("a".to_owned(), a, 1000));
    let b = q.take_free().unwrap();
    assert!(q.record("b".to_owned(), b, 1000 + IDLE_EVICTION_MS));
    let idle = q.idle_sessions(1000 + IDLE_EVICTION_MS, IDLE_EVICTION_MS);
    assert_eq!(idle, vec!["a".to_owned()]);
    assert!(q.idle_sessions(1000 + IDLE_EVICTION_MS - 1, IDLE_EVICTION_MS).is_empty());
    // a use refreshes the session
    assert_eq!(q.plan_bind(&"a".to_owned(), 2000), BindPlan::Reuse(a));
    assert!(q.idle_sessions(1000 + IDLE_EVICTION_MS, IDLE_EVICTION_MS).is_empty());
}

#[test]
fn reaper_spares_a_session_used_since_the_scan() {
    let mut q = AffinityPool::new(1, 0);
    let w = q.take_free().unwrap();
    assert!(q.record("a".to_owned(), w, 0));
    let idle = q.idle_sessions(IDLE_EVICTION_MS, IDLE_EVICTION_MS);
    assert_eq!(idle, vec!["a".to_owned()]);
    assert_eq!(q.plan_bind(&"a".to_owned(), IDLE_EVICTION_MS), BindPlan::Reuse(w));
    assert_eq!(q.unbind_if_idle(&"a".to_owned(), IDLE_EVICTION_MS, IDLE_EVICTION_MS), None);
    assert_eq!(q.unbind_if_idle(&"a".to_owned(), 2 * IDLE_EVICTION_MS, IDLE_EVICTION_MS), Some(w));
    assert_eq!(q.unbind_if_idle(&"a".to_owned(), 3 * IDLE_EVICTION_MS, IDLE_EVICTION_MS), None);
}
