use vstd::prelude::*;

verus! {

/// Why a value could not be handed to a channel; the value comes back to
/// the caller.
pub enum SendError<T> {
    /// The channel holds as many items as its capacity allows.
    Full(T),
    /// The receiving end is gone.
    Closed(T),
}

/// A bounded first-in first-out conduit from the demultiplexer to one
/// consumer.
#[derive(Clone, Debug, PartialEq)]
pub struct Channel<T> {
    items: Vec<T>,
    capacity: usize,
    accepting: bool,
}

impl<T> Channel<T> {
    /// The queued items, oldest first.
    pub closed spec fn contents(self) -> Seq<T> {
        self.items@
    }

    /// The configured capacity bound.
    pub closed spec fn cap(self) -> nat {
        self.capacity as nat
    }

    /// Whether the receiving end is still attached.
    pub closed spec fn is_accepting(self) -> bool {
        self.accepting
    }

    /// The queue never holds more than its capacity.
    pub open spec fn wf(self) -> bool {
        self.contents().len() <= self.cap()
    }

    pub fn new(capacity: usize) -> (r: Self)
        ensures
            r.contents() == Seq::<T>::empty(),
            r.cap() == capacity,
            r.is_accepting(),
            r.wf(),
    {
        Self { items: Vec::new(), capacity, accepting: true }
    }

    pub fn len(&self) -> (r: usize)
        ensures
            r == self.contents().len(),
    {
        self.items.len()
    }

    pub fn is_full(&self) -> (r: bool)
        ensures
            r == (self.contents().len() >= self.cap()),
    {
        self.items.len() >= self.capacity
    }

    pub fn is_closed(&self) -> (r: bool)
        ensures
            r == !self.is_accepting(),
    {
        !self.accepting
    }

    /// Hands one value to the channel. A closed channel refuses before a
    /// full one; either way the state is unchanged and the value comes
    /// back.
    pub fn try_send(&mut self, t: T) -> (r: Result<(), SendError<T>>)
        requires
            old(self).wf(),
        ensures
            final(self).wf(),
            final(self).cap() == old(self).cap(),
            final(self).is_accepting() == old(self).is_accepting(),
            match r {
                Ok(()) => old(self).is_accepting() && old(self).contents().len() < old(self).cap()
                    && final(self).contents() == old(self).contents().push(t),
                Err(SendError::Closed(u)) => u == t && !old(self).is_accepting() && *final(self)
                    == *old(self),
                Err(SendError::Full(u)) => u == t && old(self).is_accepting() && old(self).contents().len() >= old(self).cap() && *final(self) == *old(self),
            },
    {
        if !self.accepting {
            Err(SendError::Closed(t))
        } else if self.items.len() >= self.capacity {
            Err(SendError::Full(t))
        } else {
            self.items.push(t);
            Ok(())
        }
    }

    /// Takes the oldest queued item, if any: the consumer side.
    pub fn recv(&mut self) -> (r: Option<T>)
        ensures
            final(self).cap() == old(self).cap(),
            final(self).is_accepting() == old(self).is_accepting(),
            match r {
                Some(t) => old(self).contents().len() > 0 && t == old(self).contents()[0] && final(self).contents() == old(self).contents().drop_first(),
                None => old(self).contents().len() == 0 && *final(self) == *old(self),
            },
    {
        if self.items.len() == 0 {
            None
        } else {
            let t = self.items.remove(0);
            proof {
                assert(self.items@ =~= old(self).items@.drop_first());
            }
            Some(t)
        }
    }

    /// Detaches the receiving end: the cancellation signal for this arm.
    pub fn close(&mut self)
        ensures
            !final(self).is_accepting(),
            final(self).contents() == old(self).contents(),
            final(self).cap() == old(self).cap(),
    {
        self.accepting = false;
    }
}

} // verus!
