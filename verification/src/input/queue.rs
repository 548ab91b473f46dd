//! Queue of input events: the UI side pushes events as they happen and the
//! game drains them once per frame, oldest first.
use vstd::prelude::*;

verus! {

/// A first-in first-out queue of input events of any kind.
pub struct InputQueue<E> {
    events: Vec<E>,
}

impl<E> InputQueue<E> {
    /// The pending events, oldest first.
    pub closed spec fn pending(&self) -> Seq<E> {
        self.events@
    }

    /// An empty queue.
    pub fn new() -> (r: Self)
        ensures
            r.pending() == Seq::<E>::empty(),
    {
        InputQueue { events: Vec::with_capacity(32) }
    }

    /// Append an event behind the pending ones.
    pub fn push(&mut self, event: E)
        ensures
            final(self).pending() == old(self).pending().push(event),
    {
        self.events.push(event);
    }

    /// Take every pending event, oldest first, and leave the queue empty.
    pub fn drain(&mut self) -> (r: Vec<E>)
        ensures
            r@ == old(self).pending(),
            final(self).pending() == Seq::<E>::empty(),
    {
        let mut taken: Vec<E> = Vec::new();
        std::mem::swap(&mut taken, &mut self.events);
        taken
    }

    /// The pending events, oldest first, without taking them.
    pub fn events(&self) -> (r: &[E])
        ensures
            r@ == self.pending(),
    {
        self.events.as_slice()
    }

    /// Whether no event is pending.
    pub fn is_empty(&self) -> (r: bool)
        ensures
            r == (self.pending().len() == 0),
    {
        self.events.len() == 0
    }

    /// Number of pending events.
    pub fn len(&self) -> (r: usize)
        ensures
            r == self.pending().len(),
    {
        self.events.len()
    }
}

impl<E> Default for InputQueue<E> {
    fn default() -> (r: Self)
        ensures
            r.pending() == Seq::<E>::empty(),
    {
        Self::new()
    }
}

} // verus!
