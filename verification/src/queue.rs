use vstd::prelude::*;

verus! {

// The command stream of one context is a bounded first-in-first-out queue:
// its bound is what gives the session backpressure. A producer whose offer
// is refused holds its item and suspends; nothing already queued is ever
// dropped or reordered, and what the consumer takes out is exactly what
// was put in, oldest first.
/// A bounded first-in-first-out queue.
pub struct CommandQueue<T> {
    items: Vec<T>,
    capacity: usize,
}

impl<T> CommandQueue<T> {
    /// What is queued, oldest first.
    pub closed spec fn contents(&self) -> Seq<T> {
        self.items@
    }

    /// The fixed bound the queue was made with.
    pub closed spec fn cap(&self) -> int {
        self.capacity as int
    }

    pub fn new(capacity: usize) -> (q: CommandQueue<T>)
        requires
            capacity >= 1,
        ensures
            q.contents() == Seq::<T>::empty(),
            q.cap() == capacity,
    {
        CommandQueue { items: Vec::new(), capacity }
    }

    pub fn len(&self) -> (n: usize)
        ensures
            n == self.contents().len(),
    {
        self.items.len()
    }

    pub fn capacity(&self) -> (n: usize)
        ensures
            n == self.cap(),
    {
        self.capacity
    }

    /// Offers one item. Below the bound it is appended after everything
    /// already queued; at the bound it is handed back unchanged and the
    /// queue keeps exactly what it had, in the same order — the producer
    /// must hold the item and wait, nothing is dropped.
    pub fn offer(&mut self, item: T) -> (refused: Option<T>)
        ensures
            final(self).cap() == old(self).cap(),
            if old(self).contents().len() < old(self).cap() {
                final(self).contents() == old(self).contents().push(item) && refused is None
            } else {
                final(self).contents() == old(self).contents() && refused == Some(item)
            },
    {
        if self.items.len() < self.capacity {
            self.items.push(item);
            None
        } else {
            Some(item)
        }
    }

    /// Takes the oldest queued item, if any.
    pub fn take(&mut self) -> (r: Option<T>)
        ensures
            final(self).cap() == old(self).cap(),
            match r {
                Some(item) => old(self).contents().len() > 0 && item == old(self).contents()[0]
                    && final(self).contents() == old(self).contents().drop_first(),
                None => old(self).contents().len() == 0 && final(self).contents() == old(
                    self,
                ).contents(),
            },
    {
        if self.items.len() > 0 {
            let item = self.items.remove(0);
            proof {
                assert(self.items@ =~= old(self).items@.drop_first());
            }
            Some(item)
        } else {
            None
        }
    }
}

} // verus!
