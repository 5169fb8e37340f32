use vstd::prelude::*;

verus! {

/// A singleton slot: at most one live value of `T`. A world's resources are
/// a struct of such slots, one per resource type.
pub struct Resource<T> {
    value: Option<T>,
}

impl<T> View for Resource<T> {
    type V = Option<T>;

    closed spec fn view(&self) -> Option<T> {
        self.value
    }
}

impl<T> Resource<T> {
    /// A slot that holds nothing yet.
    pub fn empty() -> (r: Resource<T>)
        ensures
            r@ is None,
    {
        Resource { value: None }
    }

    /// A slot that holds `value`.
    pub fn new(value: T) -> (r: Resource<T>)
        ensures
            r@ == Some(value),
    {
        Resource { value: Some(value) }
    }

    pub fn contains(&self) -> (r: bool)
        ensures
            r == self@ is Some,
    {
        self.value.is_some()
    }

    /// Inserts `value`, replacing the value held, if any.
    pub fn insert_resource(&mut self, value: T)
        ensures
            final(self)@ == Some(value),
    {
        self.value = Some(value);
    }

    /// Inserts `value` only if the slot is empty; a value already held is kept.
    pub fn init_resource(&mut self, value: T)
        ensures
            final(self)@ == if old(self)@ is Some {
                old(self)@
            } else {
                Some(value)
            },
    {
        if self.value.is_none() {
            self.value = Some(value);
        }
    }

    /// The value held. Looking up a missing resource is a configuration
    /// error, so the slot must be filled.
    pub fn get(&self) -> (r: &T)
        requires
            self@ is Some,
        ensures
            Some(*r) == self@,
    {
        self.value.as_ref().unwrap()
    }

    /// Exclusive access to the value held.
    pub fn get_mut(&mut self) -> (r: &mut T)
        requires
            old(self)@ is Some,
        ensures
            Some(*r) == old(self)@,
            final(self)@ == Some(*final(r)),
    {
        self.value.as_mut().unwrap()
    }
}

} // verus!
