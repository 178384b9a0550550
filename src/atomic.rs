use vstd::prelude::*;
use vstd::std_specs::cmp::PartialEqSpec;

verus! {

/// The memory orderings that atomic operations take. On the single hart that
/// this kernel runs on every ordering behaves alike.
#[derive(Clone, Copy, Debug, PartialEq, Eq, Structural)]
pub enum Ordering {
    Relaxed,
    Release,
    Acquire,
    AcqRel,
    SeqCst,
}

/// A value read and written as one indivisible unit. Exclusive access is
/// asked of every writer, so no other write can come between the read and the
/// write of an update.
pub struct Atomic<T> {
    inner: T,
}

impl<T> View for Atomic<T> {
    type V = T;

    closed spec fn view(&self) -> T {
        self.inner
    }
}

impl<T> Atomic<T> {
    /// A new atomic holding `value`.
    pub fn new(value: T) -> (r: Atomic<T>)
        ensures
            r@ == value,
    {
        Atomic { inner: value }
    }

    /// The value, taking the atomic apart.
    pub fn into_inner(self) -> (r: T)
        ensures
            r == self@,
    {
        self.inner
    }

    /// Exclusive access to the value.
    pub fn get_mut(&mut self) -> (r: &mut T)
        ensures
            *r == old(self)@,
            final(self)@ == *final(r),
    {
        &mut self.inner
    }

    /// Store `value`.
    pub fn store(&mut self, value: T, ordering: Ordering)
        ensures
            final(self)@ == value,
    {
        self.inner = value;
    }
}

impl<T: Copy> Atomic<T> {
    /// Store `value` and return the value that was there before.
    pub fn swap(&mut self, value: T, ordering: Ordering) -> (r: T)
        ensures
            r == old(self)@,
            final(self)@ == value,
    {
        let old_value = self.inner;
        self.inner = value;
        old_value
    }

    /// The current value.
    pub fn load(&self, ordering: Ordering) -> (r: T)
        ensures
            r == self@,
    {
        self.inner
    }

    /// Replace the value by `update` of it, returning the old value in `Ok`.
    /// With the access exclusive, the update cannot be lost to another writer.
    pub fn update_weak<F: FnOnce(T) -> T>(
        &mut self,
        set_order: Ordering,
        fetch_order: Ordering,
        update: F,
    ) -> (r: Result<T, T>)
        requires
            update.requires((old(self)@,)),
        ensures
            r == Ok::<T, T>(old(self)@),
            update.ensures((old(self)@,), final(self)@),
    {
        let fetched = self.load(fetch_order);
        let new = update(fetched);
        self.store(new, set_order);
        Ok(fetched)
    }

    /// Replace the value by `update` of it, returning the old value.
    pub fn update<F: FnOnce(T) -> T>(
        &mut self,
        set_order: Ordering,
        fetch_order: Ordering,
        update: F,
    ) -> (r: T)
        requires
            update.requires((old(self)@,)),
        ensures
            r == old(self)@,
            update.ensures((old(self)@,), final(self)@),
    {
        match self.update_weak(set_order, fetch_order, update) {
            Ok(old_value) => old_value,
            Err(old_value) => old_value,
        }
    }
}

impl<T: Copy + PartialEq> Atomic<T> {
    /// Store `new` if the value equals `current`; either way return the old
    /// value, in `Ok` when the store happened.
    pub fn compare_exchange(
        &mut self,
        current: T,
        new: T,
        success: Ordering,
        failure: Ordering,
    ) -> (r: Result<T, T>)
        requires
            T::obeys_eq_spec(),
        ensures
            current.eq_spec(&old(self)@) ==> r == Ok::<T, T>(old(self)@) && final(self)@ == new,
            !current.eq_spec(&old(self)@) ==> r == Err::<T, T>(old(self)@) && final(self)@
                == old(self)@,
    {
        let fetched = self.inner;
        if current == fetched {
            self.inner = new;
            Ok(fetched)
        } else {
            Err(fetched)
        }
    }

    /// As `compare_exchange`; on this hart it never fails spuriously.
    pub fn compare_exchange_weak(
        &mut self,
        current: T,
        new: T,
        success: Ordering,
        failure: Ordering,
    ) -> (r: Result<T, T>)
        requires
            T::obeys_eq_spec(),
        ensures
            current.eq_spec(&old(self)@) ==> r == Ok::<T, T>(old(self)@) && final(self)@ == new,
            !current.eq_spec(&old(self)@) ==> r == Err::<T, T>(old(self)@) && final(self)@
                == old(self)@,
    {
        self.compare_exchange(current, new, success, failure)
    }
}

impl Atomic<u8> {
    /// Bitwise and with the value; returns the old value.
    pub fn fetch_and(&mut self, value: u8, ordering: Ordering) -> (r: u8)
        ensures
            r == old(self)@,
            final(self)@ == old(self)@ & value,
    {
        let old_value = self.inner;
        self.inner = old_value & value;
        old_value
    }

    /// Bitwise nand with the value; returns the old value.
    pub fn fetch_nand(&mut self, value: u8, ordering: Ordering) -> (r: u8)
        ensures
            r == old(self)@,
            final(self)@ == !(old(self)@ & value),
    {
        let old_value = self.inner;
        self.inner = !(old_value & value);
        old_value
    }

    /// Bitwise or with the value; returns the old value.
    pub fn fetch_or(&mut self, value: u8, ordering: Ordering) -> (r: u8)
        ensures
            r == old(self)@,
            final(self)@ == old(self)@ | value,
    {
        let old_value = self.inner;
        self.inner = old_value | value;
        old_value
    }

    /// Bitwise xor with the value; returns the old value.
    pub fn fetch_xor(&mut self, value: u8, ordering: Ordering) -> (r: u8)
        ensures
            r == old(self)@,
            final(self)@ == old(self)@ ^ value,
    {
        let old_value = self.inner;
        self.inner = old_value ^ value;
        old_value
    }
}

impl<T> From<T> for Atomic<T> {
    fn from(value: T) -> (r: Atomic<T>)
        ensures
            r@ == value,
    {
        Atomic::new(value)
    }
}

impl<T> vstd::std_specs::convert::FromSpecImpl<T> for Atomic<T> {
    open spec fn obeys_from_spec() -> bool {
        true
    }

    closed spec fn from_spec(value: T) -> Atomic<T> {
        Atomic { inner: value }
    }
}

} // verus!
