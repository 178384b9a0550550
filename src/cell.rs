use vstd::prelude::*;

verus! {

/// A cell for a value that the single hart shares between kernel paths.
pub struct SyncUnsafeCell<T> {
    inner: T,
}

impl<T> View for SyncUnsafeCell<T> {
    type V = T;

    closed spec fn view(&self) -> T {
        self.inner
    }
}

impl<T> SyncUnsafeCell<T> {
    /// A new cell holding `value`.
    pub fn new(value: T) -> (r: SyncUnsafeCell<T>)
        ensures
            r@ == value,
    {
        SyncUnsafeCell { inner: value }
    }

    /// The value, taking the cell apart.
    pub fn into_inner(self) -> (r: T)
        ensures
            r == self@,
    {
        self.inner
    }

    /// Shared access to the value.
    pub fn get(&self) -> (r: &T)
        ensures
            *r == self@,
    {
        &self.inner
    }

    /// Exclusive access to the value.
    pub fn get_mut(&mut self) -> (r: &mut T)
        ensures
            *r == old(self)@,
            final(self)@ == *final(r),
    {
        &mut self.inner
    }
}

/// A value that can be written once; afterwards it can only be read.
pub struct OnceLock<T> {
    value: Option<T>,
}

impl<T> View for OnceLock<T> {
    type V = Option<T>;

    closed spec fn view(&self) -> Option<T> {
        self.value
    }
}

impl<T> OnceLock<T> {
    /// A lock that holds no value yet.
    pub fn new() -> (r: OnceLock<T>)
        ensures
            r@ is None,
    {
        OnceLock { value: None }
    }

    /// The value, once it has been set.
    pub fn get(&self) -> (r: Option<&T>)
        ensures
            r is None <==> self@ is None,
            r matches Some(v) ==> *v == self@->0,
    {
        match &self.value {
            Some(v) => Some(v),
            None => None,
        }
    }

    /// Set the value. If it was already set, the lock is unchanged and
    /// `value` comes back in `Err`.
    pub fn set(&mut self, value: T) -> (r: Result<(), T>)
        ensures
            old(self)@ is None ==> r is Ok && final(self)@ == Some(value),
            old(self)@ is Some ==> r == Err::<(), T>(value) && final(self)@ == old(self)@,
    {
        if self.value.is_some() {
            return Err(value);
        }
        self.value = Some(value);
        Ok(())
    }
}

impl<T> Default for OnceLock<T> {
    fn default() -> (r: OnceLock<T>)
        ensures
            r@ is None,
    {
        OnceLock::new()
    }
}

impl<T> From<T> for OnceLock<T> {
    fn from(value: T) -> (r: OnceLock<T>)
        ensures
            r@ == Some(value),
    {
        OnceLock { value: Some(value) }
    }
}

impl<T> vstd::std_specs::convert::FromSpecImpl<T> for OnceLock<T> {
    open spec fn obeys_from_spec() -> bool {
        true
    }

    closed spec fn from_spec(value: T) -> OnceLock<T> {
        OnceLock { value: Some(value) }
    }
}

/// A value that the kernel declares safe to share on its single hart.
pub struct AssertSync<T>(pub T);

impl<T> AssertSync<T> {
    /// Shared access to the value.
    pub fn get(&self) -> (r: &T)
        ensures
            *r == self.0,
    {
        &self.0
    }

    /// Exclusive access to the value.
    pub fn get_mut(&mut self) -> (r: &mut T)
        ensures
            *r == old(self).0,
            final(self).0 == *final(r),
    {
        &mut self.0
    }
}

} // verus!
