//! Coverage of the write-once cell.

use kernel::cell::OnceLock;

#[test]
fn test_once_lock() {
    let mut lock = OnceLock::<u32>::default();
    assert!(lock.get().is_none());
    assert!(lock.set(5).is_ok());
    assert_eq!(*lock.get().expect("Should now have a value"), 5);
    assert!(lock.set(6).is_err(), "Should no longer allow setting");

    let mut lock = OnceLock::from(7_u32);
    assert_eq!(*lock.get().expect("Should now have a value"), 7);
    assert!(lock.set(8).is_err(), "Should no longer allow setting");
}
