use gc_core::collect::{AccessCounter, CLOSE_MASK};
use gc_core::mark::{
    HotspotMark, HotspotMarkBits, LockAction, LockRecord, LockRecordStack, MarkWord, TestMark,
    UnlockAction, INFLATING, LOCKED, MONITOR, UNLOCKED,
};
use gc_core::monitor::ObjectMonitor;

#[test]
fn counter_enter_and_exit() {
    let mut c = AccessCounter::new();
    assert_eq!(c.counter, 0);
    let _g1 = c.increment_or_savepoint();
    let _g2 = c.increment();
    assert_eq!(c.counter, 2);
    c.exit_counter();
    c.exit_counter();
    assert_eq!(c.counter, 0);
}

#[test]
fn counter_close_then_release_restores_word() {
    let mut c = AccessCounter::new();
    let _g1 = c.increment_or_savepoint();
    let _g2 = c.increment_or_savepoint();
    assert_eq!(c.counter, 2);
    let _close = c.close_counter();
    assert_eq!(c.counter, CLOSE_MASK + 2);
    // Readers drain; the closer waits for exactly "closed, count 0".
    c.exit_counter();
    c.exit_counter();
    c.block_until_closed();
    assert_eq!(c.counter, CLOSE_MASK);
    c.release_close_request();
    assert_eq!(c.counter, 0);
}

#[test]
fn counter_forced_entry_under_close() {
    let mut c = AccessCounter::new();
    let _g1 = c.increment_or_savepoint();
    let _close = c.close_counter();
    // One reader is still inside, so a nested entry is permitted and
    // keeps the close bit.
    c.forced_entry();
    assert_eq!(c.counter, CLOSE_MASK + 2);
    c.exit_counter();
    c.exit_counter();
    assert_eq!(c.counter, CLOSE_MASK);
}

#[test]
fn test_mark_set_and_unmark() {
    let mut m = TestMark::new();
    assert!(!m.is_marked());
    assert!(!m.set_mark());
    assert!(m.is_marked());
    // Setting again reports it was already set.
    assert!(m.set_mark());
    m.unmark();
    assert!(!m.is_marked());
}

#[test]
fn hotspot_mark_bits_fields() {
    let bits = HotspotMarkBits { bits: 0x1234_5678_9abc_def2 };
    assert!(!bits.inflating());
    assert!(bits.inflate().inflating());
    assert_eq!(bits.ptr(), 0x1234_5678_9abc_def0);
    assert_eq!(HotspotMarkBits::min_alignment(), 128);
}

#[test]
fn thin_lock_acquire_and_release() {
    let mut mark = HotspotMark::new();
    assert_eq!(mark.mark, UNLOCKED);
    let mut record = LockRecordStack::new(1024);
    let act = mark.lock(&mut record);
    assert_eq!(act, LockAction::AcquiredThin);
    // The word now points at our record entry: low bits read `locked`.
    assert_eq!(mark.mark % 4, LOCKED);
    assert_eq!(mark.mark, 1024);

    // Recursive acquisition pushes an indicator entry.
    let act2 = mark.lock(&mut record);
    assert_eq!(act2, LockAction::AcquiredRecursive);
    assert_eq!(mark.mark, 1024);

    // Unlock twice: first the indicator, then the displaced word.
    let rel1 = mark.unlock(&mut record);
    assert_eq!(rel1, UnlockAction::ReleasedRecursive);
    assert_eq!(mark.mark, 1024);
    let rel2 = mark.unlock(&mut record);
    assert_eq!(rel2, UnlockAction::ReleasedThin);
    assert_eq!(mark.mark, UNLOCKED);
}

#[test]
fn thin_lock_inflates_to_monitor() {
    // Thread 1 thin-locks the object.
    let mut mark = HotspotMark::new();
    let mut record1 = LockRecordStack::new(1024);
    assert_eq!(mark.lock(&mut record1), LockAction::AcquiredThin);
    assert_eq!(mark.mark % 4, LOCKED);

    // Thread 2 attempts the lock through its own record: the word does
    // not belong to it, so inflation begins.
    let mut record2 = LockRecordStack::new(4096);
    assert_eq!(mark.lock(&mut record2), LockAction::BeginInflate);
    assert_eq!(mark.mark, INFLATING);

    // While inflating, other lockers retry.
    assert_eq!(mark.lock(&mut record2), LockAction::Retry);

    // Thread 2 installs the monitor it allocated at 512.
    mark.install_monitor(512);
    assert_eq!(mark.mark % 4, MONITOR);
    assert_eq!(mark.mark, 512 + MONITOR);

    // Every further lock attempt is directed to that monitor.
    assert_eq!(mark.lock(&mut record2), LockAction::EnterMonitor { monitor: 512 });

    // Thread 1 releases through the monitor; thread 2 then acquires it.
    assert_eq!(mark.unlock(&mut record1), UnlockAction::ExitMonitor { monitor: 512 });
    let mut monitor = ObjectMonitor::new();
    assert!(monitor.lock(2));
    assert_eq!(monitor.owner, Some(2));
}

#[test]
fn recursive_monitor_counts_exactly() {
    let mut m = ObjectMonitor::new();
    assert!(m.lock(7));
    assert!(m.lock(7));
    assert!(m.lock(7));
    assert_eq!(m.recursion, 3);
    assert_eq!(m.owner, Some(7));
    m.unlock(7);
    m.unlock(7);
    assert_eq!(m.recursion, 1);
    m.unlock(7);
    assert_eq!(m.owner, None);
    assert_eq!(m.recursion, 0);
}

#[test]
fn monitor_refuses_other_threads() {
    let mut m = ObjectMonitor::new();
    assert!(m.lock(1));
    assert!(!m.lock(2));
    assert!(!m.try_lock(2));
    assert_eq!(m.owner, Some(1));
    assert!(m.check_lock());
    m.unlock(1);
    assert!(!m.check_lock());
    assert!(m.try_lock(2));
    assert_eq!(m.owner, Some(2));
}

#[test]
fn lock_record_stores_and_forfeits() {
    let mut r = LockRecordStack::new(64);
    let a = r.store(0x11);
    assert_eq!(a, 64);
    assert_eq!(a % 8, 0);
    let b = r.store(0x22);
    assert_eq!(b, 72);
    assert!(r.holds_entry(64));
    assert!(r.holds_entry(72));
    assert!(!r.holds_entry(80));
    assert_eq!(r.top_word(), 0x22);
    r.forfeit(b);
    assert_eq!(r.top_word(), 0x11);
}
