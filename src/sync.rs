use vstd::prelude::*;

verus! {

/// A lock around a value. Taking it takes the lock itself by exclusive
/// borrow, and the guard holds that borrow until it is dropped: while a
/// guard lives nobody else can reach the value, and once it is dropped the
/// lock is free again. On the kernel's single hart, with Rust's borrow rules
/// ruling out a second holder, taking the lock never has to spin or yield.
pub struct KSpinLock<T> {
    value: T,
}

impl<T> View for KSpinLock<T> {
    type V = T;

    closed spec fn view(&self) -> T {
        self.value
    }
}

impl<T> KSpinLock<T> {
    /// A free lock around `value`.
    pub fn new(value: T) -> (r: KSpinLock<T>)
        ensures
            r@ == value,
    {
        KSpinLock { value }
    }

    /// The value, taking the lock apart.
    pub fn into_inner(self) -> (r: T)
        ensures
            r == self@,
    {
        self.value
    }

    /// Shared access to the value, for a look that needs no lock.
    pub fn get(&self) -> (r: &T)
        ensures
            *r == self@,
    {
        &self.value
    }

    /// Exclusive access to the value, without taking the lock.
    pub fn get_mut(&mut self) -> (r: &mut T)
        ensures
            *r == old(self)@,
            final(self)@ == *final(r),
    {
        &mut self.value
    }

    /// Take the lock: with the lock borrowed exclusively no other guard can
    /// exist, so this always succeeds.
    pub fn try_lock(&mut self) -> (r: Option<KSpinLockGuard<'_, T>>)
        ensures
            r matches Some(g) && *g.data == old(self)@ && final(self)@ == *final(g.data),
    {
        Some(KSpinLockGuard { data: &mut self.value })
    }

    /// Take the lock.
    pub fn lock(&mut self) -> (r: KSpinLockGuard<'_, T>)
        ensures
            *r.data == old(self)@,
            final(self)@ == *final(r.data),
    {
        KSpinLockGuard { data: &mut self.value }
    }
}

/// The held lock: exclusive access to the value until it is dropped.
pub struct KSpinLockGuard<'a, T> {
    pub data: &'a mut T,
}

} // verus!

verus! {

/// A value computed by `F` the first time that it is asked for.
pub struct LazyLock<T, F> {
    value: Option<T>,
    init_func: Option<F>,
}

impl<T, F: FnOnce() -> T> LazyLock<T, F> {
    /// The computed value, if it has been computed.
    pub closed spec fn value(&self) -> Option<T> {
        self.value
    }

    /// The function that computes the value, until it has run.
    pub closed spec fn init_func(&self) -> Option<F> {
        self.init_func
    }

    pub open spec fn wf(&self) -> bool {
        self.value() is None ==> self.init_func() is Some
    }

    /// A lock that will compute its value with `f`.
    pub fn new(f: F) -> (r: LazyLock<T, F>)
        ensures
            r.wf(),
            r.value() is None,
            r.init_func() == Some(f),
    {
        LazyLock { value: None, init_func: Some(f) }
    }

    /// The value: computed now if it was not yet, afterwards kept.
    pub fn force(&mut self) -> (r: &T)
        requires
            old(self).wf(),
            old(self).value() is None ==> old(self).init_func()->0.requires(()),
        ensures
            final(self).wf(),
            final(self).value() == Some(*r),
            old(self).value() is Some ==> *r == old(self).value()->0,
            old(self).value() is None ==> old(self).init_func()->0.ensures((), *r),
    {
        if self.value.is_none() {
            let f = self.init_func.take().unwrap();
            let v = f();
            self.value = Some(v);
        }
        self.value.as_ref().unwrap()
    }
}

} // verus!
