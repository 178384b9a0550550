//! Coverage of the atomic cell.

use kernel::atomic::{Atomic, Ordering};

#[derive(Clone, Copy)]
enum Values {
    A,
    B,
    C,
}

#[derive(Clone, Copy)]
struct TestDatum {
    a: u16,
    b: u8,
    c: Values,
}

#[test]
fn test_basic_atomic_ops() {
    let mut atomic = Atomic::new(TestDatum {
        a: 0,
        b: 0,
        c: Values::A,
    });
    assert!(
        matches!(
            atomic.load(Ordering::Relaxed),
            TestDatum {
                a: 0,
                b: 0,
                c: Values::A,
            }
        ),
        "`load` didn't match expected value",
    );
    atomic.store(
        TestDatum {
            a: 1,
            b: 2,
            c: Values::C,
        },
        Ordering::Relaxed,
    );
    assert!(
        matches!(
            atomic.load(Ordering::Relaxed),
            TestDatum {
                a: 1,
                b: 2,
                c: Values::C,
            }
        ),
        "`store` didn't change value",
    );
    assert!(
        atomic
            .update_weak(Ordering::Relaxed, Ordering::Relaxed, |mut old_value| {
                old_value.c = Values::B;
                old_value
            })
            .is_ok(),
        "Update failed without concurrent access"
    );
    assert!(
        matches!(
            atomic.update(Ordering::Relaxed, Ordering::Relaxed, |mut old_value| {
                old_value.c = Values::C;
                old_value
            }),
            TestDatum {
                a: 1,
                b: 2,
                c: Values::B,
            }
        ),
        "`update_weak` didn't change value to expected",
    );
    assert!(
        matches!(
            atomic.load(Ordering::Relaxed),
            TestDatum {
                a: 1,
                b: 2,
                c: Values::C,
            }
        ),
        "`update` didn't change value to expected",
    );
    assert!(
        matches!(
            atomic.get_mut(),
            &mut TestDatum {
                a: 1,
                b: 2,
                c: Values::C,
            }
        ),
        "`get_mut` didn't read value as expected",
    );
    assert!(
        matches!(
            atomic.into_inner(),
            TestDatum {
                a: 1,
                b: 2,
                c: Values::C,
            }
        ),
        "`into_inner` didn't read value as expected",
    );
}

#[test]
fn test_bitwise_ops() {
    let mut atomic = Atomic::new(0_u8);
    assert_eq!(atomic.fetch_or(0x13, Ordering::Relaxed), 0);
    assert_eq!(atomic.fetch_xor(0x22, Ordering::Relaxed), 0x13);
    assert_eq!(atomic.fetch_and(0x11, Ordering::Relaxed), 0x31);
    assert_eq!(atomic.fetch_nand(0x27, Ordering::Relaxed), 0x11);
    assert_eq!(atomic.load(Ordering::Relaxed), 0xfe);
}

#[test]
fn swap_and_compare_exchange() {
    let mut atomic = Atomic::new(5_u32);
    assert_eq!(atomic.swap(7, Ordering::SeqCst), 5);
    assert_eq!(atomic.compare_exchange(5, 9, Ordering::SeqCst, Ordering::SeqCst), Err(7));
    assert_eq!(atomic.compare_exchange(7, 9, Ordering::SeqCst, Ordering::SeqCst), Ok(7));
    assert_eq!(atomic.compare_exchange_weak(9, 1, Ordering::SeqCst, Ordering::SeqCst), Ok(9));
    assert_eq!(Atomic::from(3_u32).into_inner(), 3);
}
