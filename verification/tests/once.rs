use kernel::once::{Lazy, OnceLock, TryGetError, TryInitError};
use std::cell::Cell;

#[test]
fn get_init_once() {
    let mut once = OnceLock::new();
    assert_eq!(once.get(), None);
    let res = once.try_init_once(|| 4);
    assert!(res.is_ok());
    assert_eq!(once.get(), Some(&4));
    let res = once.try_init_once(|| 5);
    assert!(res.is_err());
    assert_eq!(once.get(), Some(&4));
}

#[test]
fn with_value() {
    let mut once = OnceLock::with_value(5);
    assert_eq!(once.get(), Some(&5));
    let res = once.try_init_once(|| 4);
    assert!(res.is_err());
    assert_eq!(once.get(), Some(&5));
}

#[test]
fn test_lazy() {
    let mut lazy = Lazy::new(|| 6);
    assert!(!lazy.is_init());
    assert_eq!(*lazy.get_or_init(), 6);
    assert!(lazy.is_init());
}

#[test]
fn try_get_tells_why_it_failed() {
    let mut once: OnceLock<u8> = OnceLock::new();
    assert!(!once.is_init());
    assert_eq!(once.try_get(), Err(TryGetError::Uninitialized));
    assert_eq!(once.try_init_once(|| 1), Ok(()));
    assert!(once.is_init());
    assert_eq!(once.try_get(), Ok(&1));
    assert_eq!(*once.get_unchecked(), 1);
    assert_eq!(once.try_init_once(|| 2), Err(TryInitError::AlreadyInitialized));
}

#[test]
fn the_initialiser_runs_at_most_once() {
    let calls = Cell::new(0);
    let mut once = OnceLock::new();
    once.init_once(|| {
        calls.set(calls.get() + 1);
        10
    });
    once.init_once(|| {
        calls.set(calls.get() + 1);
        11
    });
    assert_eq!(*once.get_or_init(|| {
        calls.set(calls.get() + 1);
        12
    }), 10);
    assert_eq!(calls.get(), 1);
}

#[test]
fn get_or_init_initialises_an_empty_cell() {
    let mut once = OnceLock::new();
    assert_eq!(*once.get_or_init(|| 3), 3);
    assert_eq!(*once.get_or_init(|| 4), 3);
}

#[test]
fn a_lazy_value_is_computed_once() {
    let calls = Cell::new(0);
    let mut lazy = Lazy::new(|| {
        calls.set(calls.get() + 1);
        String::from("ready")
    });
    assert_eq!(lazy.get_or_init(), "ready");
    assert_eq!(lazy.get_or_init(), "ready");
    assert_eq!(calls.get(), 1);
}
