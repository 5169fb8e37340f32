use vstd::prelude::*;

verus! {

/// An event channel: values emitted since the channel was last cleared, in
/// emission order. Reading does not consume; any number of systems may read
/// the same values until the clearing system runs.
pub struct Events<T> {
    buffer: Vec<T>,
}

impl<T> View for Events<T> {
    type V = Seq<T>;

    closed spec fn view(&self) -> Seq<T> {
        self.buffer@
    }
}

impl<T> Events<T> {
    /// An empty channel.
    pub fn new() -> (r: Events<T>)
        ensures
            r@ == Seq::<T>::empty(),
    {
        Events { buffer: Vec::new() }
    }

    /// Appends `value` to the channel.
    pub fn send(&mut self, value: T)
        ensures
            final(self)@ == old(self)@.push(value),
    {
        self.buffer.push(value);
    }

    /// Every value in the channel, in emission order.
    pub fn iter(&self) -> (r: &[T])
        ensures
            r@ == self@,
    {
        self.buffer.as_slice()
    }

    pub fn len(&self) -> (r: usize)
        ensures
            r == self@.len(),
    {
        self.buffer.len()
    }

    pub fn is_empty(&self) -> (r: bool)
        ensures
            r == (self@.len() == 0),
    {
        self.buffer.len() == 0
    }

    /// Clears the channel; this is what the clearing system runs once per tick.
    pub fn update(&mut self)
        ensures
            final(self)@ == Seq::<T>::empty(),
    {
        self.buffer.clear();
    }
}

impl<T> Default for Events<T> {
    fn default() -> (r: Events<T>)
        ensures
            r@ == Seq::<T>::empty(),
    {
        Events::new()
    }
}

} // verus!
