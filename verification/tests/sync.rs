use kernel::sched::queue::Queue;
use kernel::sched::thread::ThreadTable;
use kernel::sync::{InPlace, SpinLock};

#[test]
fn data_survives_the_lock() {
    let lock = SpinLock::new(Queue::new());
    let mut guard = lock.lock(true);
    guard.deref_mut().push(5u64).unwrap();
    assert_eq!(guard.deref().len(), 1);
    assert!(SpinLock::unlock(guard));
    let mut guard = lock.lock(false);
    assert_eq!(guard.deref_mut().pop(), Some(5));
    assert_eq!(guard.deref_mut().pop(), None);
    assert!(!SpinLock::unlock(guard));
}

#[test]
fn nested_locks_restore_interrupts() {
    let outer = SpinLock::new(ThreadTable::new());
    let inner = SpinLock::new(Queue::<u64>::new());
    let mut interrupts = true;

    let first = outer.lock(interrupts);
    interrupts = false;
    let second = inner.lock(interrupts);
    interrupts |= SpinLock::unlock(second);
    assert!(!interrupts);
    interrupts |= SpinLock::unlock(first);
    assert!(interrupts);
}

#[test]
fn locks_are_shared_between_cpus() {
    fn shareable<T: Send + Sync>(_: &T) {}
    shareable(&SpinLock::new(Queue::<u64>::new()));
    shareable(&SpinLock::new(ThreadTable::new()));
}

#[test]
fn lock_over_a_reference_leaves_the_data_in_place() {
    let mut queue = Queue::new();
    {
        let lock = SpinLock::new(InPlace(&mut queue));
        let mut guard = lock.lock(true);
        guard.deref_mut().0.push(1).unwrap();
        assert_eq!(guard.deref().0.len(), 1);
        assert!(SpinLock::unlock(guard));
    }
    assert_eq!(queue.pop(), Some(1));
}
