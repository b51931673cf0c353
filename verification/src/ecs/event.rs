use vstd::prelude::*;

verus! {

/// A double-buffered event channel.
///
/// Events sent during the current frame are readable together with the
/// previous frame's events; [`update`](Events::update) moves the current
/// events to the previous slot and clears the current slot, so every
/// event stays readable for one full frame after it was sent.
pub struct Events<T> {
    events: Vec<T>,
    prev_events: Vec<T>,
}

impl<T> Events<T> {
    /// Events sent during the current frame.
    pub closed spec fn current(&self) -> Seq<T> {
        self.events@
    }

    /// Events from the previous frame.
    pub closed spec fn previous(&self) -> Seq<T> {
        self.prev_events@
    }

    /// Everything readable: previous-frame events first, then current ones.
    pub open spec fn readable(&self) -> Seq<T> {
        self.previous() + self.current()
    }

    /// Creates a new, empty event channel.
    pub fn new() -> (r: Self)
        ensures
            r.current() == Seq::<T>::empty(),
            r.previous() == Seq::<T>::empty(),
    {
        Events { events: Vec::new(), prev_events: Vec::new() }
    }

    /// Sends an event, readable this frame and the next.
    pub fn send(&mut self, event: T)
        ensures
            final(self).current() == old(self).current().push(event),
            final(self).previous() == old(self).previous(),
    {
        self.events.push(event);
    }

    /// Returns an iterator over all readable events: previous-frame ones
    /// first, then the current frame's, each in the order sent.
    pub fn read(&self) -> (r: std::vec::IntoIter<&T>)
        ensures
            vstd::std_specs::iter::IteratorSpec::remaining(&r).len() == self.readable().len(),
            forall|i: int| 0 <= i < vstd::std_specs::iter::IteratorSpec::remaining(&r).len() ==> *(#[trigger] vstd::std_specs::iter::IteratorSpec::remaining(&r)[i]) == self.readable()[i],
    {
        let v = self.readable_refs();
        proof {
            broadcast use vstd::std_specs::vec::axiom_spec_into_iter;
        }
        v.into_iter()
    }

    /// All readable events, in the order of [`Events::read`].
    fn readable_refs(&self) -> (r: Vec<&T>)
        ensures
            r@.len() == self.readable().len(),
            forall|i: int| 0 <= i < r@.len() ==> *(#[trigger] r@[i]) == self.readable()[i],
    {
        let mut r: Vec<&T> = Vec::new();
        let mut i: usize = 0;
        while i < self.prev_events.len()
            invariant
                i <= self.previous().len(),
                r@.len() == i,
                forall|j: int| 0 <= j < i ==> *(#[trigger] r@[j]) == self.readable()[j],
            decreases self.previous().len() - i,
        {
            r.push(&self.prev_events[i]);
            i = i + 1;
        }
        let mut k: usize = 0;
        while k < self.events.len()
            invariant
                k <= self.current().len(),
                r@.len() == self.previous().len() + k,
                forall|j: int| 0 <= j < r@.len() ==> *(#[trigger] r@[j]) == self.readable()[j],
            decreases self.current().len() - k,
        {
            r.push(&self.events[k]);
            k = k + 1;
        }
        r
    }

    /// Advances the double buffer: the current events become the previous
    /// ones (the old previous ones are dropped) and the current slot is
    /// emptied.
    pub fn update(&mut self)
        ensures
            final(self).previous() == old(self).current(),
            final(self).current() == Seq::<T>::empty(),
    {
        std::mem::swap(&mut self.prev_events, &mut self.events);
        self.events.clear();
    }

    /// Returns the number of readable events (current plus previous).
    pub fn len(&self) -> (r: usize)
        requires
            self.previous().len() + self.current().len() <= usize::MAX,
        ensures
            r == self.readable().len(),
    {
        self.events.len() + self.prev_events.len()
    }

    /// Returns `true` if there are no readable events.
    pub fn is_empty(&self) -> (r: bool)
        ensures
            r == (self.readable().len() == 0),
    {
        self.events.len() == 0 && self.prev_events.len() == 0
    }

    /// Clears both buffers.
    pub fn clear(&mut self)
        ensures
            final(self).current() == Seq::<T>::empty(),
            final(self).previous() == Seq::<T>::empty(),
    {
        self.events.clear();
        self.prev_events.clear();
    }
}

impl<T> Default for Events<T> {
    fn default() -> (r: Self)
        ensures
            r.current() == Seq::<T>::empty(),
            r.previous() == Seq::<T>::empty(),
    {
        Self::new()
    }
}

/// An event sent in one frame is readable in that frame and in the next
/// (after one `update`), and is gone after a second `update` that follows
/// a frame in which nothing was sent.
pub proof fn law_event_readable_for_one_frame<T>(
    before: Events<T>,
    sent: Events<T>,
    next_frame: Events<T>,
    after: Events<T>,
    e: T,
)
    requires
        sent.current() == before.current().push(e),
        sent.previous() == before.previous(),
        next_frame.previous() == sent.current(),
        next_frame.current() == Seq::<T>::empty(),
        after.previous() == next_frame.current(),
        after.current() == Seq::<T>::empty(),
    ensures
        sent.readable().contains(e),
        next_frame.readable().contains(e),
        after.readable().len() == 0,
{
    let k = sent.previous().len() + sent.current().len() - 1;
    assert(sent.readable()[k] == e);
    assert(next_frame.readable()[sent.current().len() - 1] == e);
}

/// Convenience handle for sending events through a mutable reference.
pub struct EventWriter<'a, T> {
    events: &'a mut Events<T>,
}

impl<'a, T> EventWriter<'a, T> {
    /// The channel this writer sends to.
    pub closed spec fn channel(&self) -> Events<T> {
        *self.events
    }

    /// Creates a new event writer.
    pub fn new(events: &'a mut Events<T>) -> (r: Self)
        ensures
            r.channel() == *old(events),
    {
        EventWriter { events }
    }

    /// Sends an event.
    pub fn send(&mut self, event: T)
        ensures
            final(self).channel().current() == old(self).channel().current().push(event),
            final(self).channel().previous() == old(self).channel().previous(),
    {
        self.events.send(event);
    }
}

/// Convenience handle for reading events through a shared reference.
pub struct EventReader<'a, T> {
    events: &'a Events<T>,
}

impl<'a, T> EventReader<'a, T> {
    /// The channel this reader reads.
    pub closed spec fn channel(&self) -> Events<T> {
        *self.events
    }

    /// Creates a new event reader.
    pub fn new(events: &'a Events<T>) -> (r: Self)
        ensures
            r.channel() == *events,
    {
        EventReader { events }
    }

    /// Returns an iterator over all readable events of the channel.
    pub fn read(&self) -> (r: std::vec::IntoIter<&T>)
        ensures
            vstd::std_specs::iter::IteratorSpec::remaining(&r).len() == self.channel().readable().len(),
            forall|i: int| 0 <= i < vstd::std_specs::iter::IteratorSpec::remaining(&r).len() ==> *(#[trigger] vstd::std_specs::iter::IteratorSpec::remaining(&r)[i]) == self.channel().readable()[i],
    {
        self.events.read()
    }
}

} // verus!
