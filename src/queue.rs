use vstd::prelude::*;
use std::collections::VecDeque;

verus! {

/// A first-in first-out queue of batches that never holds more than its
/// capacity: a sender that finds it full keeps its item and waits. This is
/// the model of the bounded channel between decoders and the writer; the
/// program runs std's bounded channel of the same capacity.
pub struct BoundedQueue<T> {
    pub items: VecDeque<T>,
    pub capacity: usize,
}

impl<T> BoundedQueue<T> {
    pub open spec fn wf(&self) -> bool {
        self.capacity > 0 && self.items@.len() <= self.capacity
    }

    /// An empty queue of the given capacity (at least one).
    pub fn new(capacity: usize) -> (r: Self)
        requires
            capacity > 0,
        ensures
            r.wf(),
            r.items@.len() == 0,
            r.capacity == capacity,
    {
        BoundedQueue { items: VecDeque::new(), capacity }
    }

    pub fn len(&self) -> (r: usize)
        ensures
            r == self.items@.len(),
    {
        self.items.len()
    }

    pub fn is_full(&self) -> (r: bool)
        ensures
            r == (self.items@.len() >= self.capacity),
    {
        self.items.len() >= self.capacity
    }

    /// Appends `item` unless the queue is full, in which case the item comes
    /// back to the sender.
    pub fn try_send(&mut self, item: T) -> (r: Option<T>)
        requires
            old(self).wf(),
        ensures
            final(self).wf(),
            final(self).capacity == old(self).capacity,
            old(self).items@.len() < old(self).capacity ==> r is None && final(self).items@
                == old(self).items@.push(item),
            old(self).items@.len() >= old(self).capacity ==> r == Some(item) && final(self).items@
                == old(self).items@,
    {
        if self.items.len() >= self.capacity {
            Some(item)
        } else {
            self.items.push_back(item);
            None
        }
    }

    /// Takes the oldest item, if any.
    pub fn recv(&mut self) -> (r: Option<T>)
        requires
            old(self).wf(),
        ensures
            final(self).wf(),
            final(self).capacity == old(self).capacity,
            old(self).items@.len() == 0 ==> r is None && final(self).items@ == old(self).items@,
            old(self).items@.len() > 0 ==> r == Some(old(self).items@[0]) && final(self).items@
                == old(self).items@.drop_first(),
    {
        self.items.pop_front()
    }
}

/// Where batches are held in a run: by decoders (at most one each), in the
/// queue, and by the writer (at most one). A model of how a run holds
/// batches: each decoder thread holds at most one, the bounded channel at
/// most its capacity, the writer at most one.
#[derive(Debug, Clone, Copy)]
pub struct Residency {
    pub concurrency: usize,
    pub capacity: usize,
    pub decoding: usize,
    pub queued: usize,
    pub writing: usize,
}

impl Residency {
    pub open spec fn wf(&self) -> bool {
        &&& self.decoding <= self.concurrency
        &&& self.queued <= self.capacity
        &&& self.writing <= 1
    }

    pub open spec fn resident(&self) -> int {
        self.decoding + self.queued + self.writing
    }

    /// No batch is held yet.
    pub fn new(concurrency: usize, capacity: usize) -> (r: Self)
        ensures
            r.wf(),
            r.concurrency == concurrency && r.capacity == capacity,
            r.resident() == 0,
    {
        Residency { concurrency, capacity, decoding: 0, queued: 0, writing: 0 }
    }

    /// A decoder produces a batch; it may hold only one at a time.
    pub fn decode(&mut self) -> (r: bool)
        requires
            old(self).wf(),
        ensures
            final(self).wf(),
            r == (old(self).decoding < old(self).concurrency),
            r ==> (*final(self) == Residency { decoding: (old(self).decoding + 1) as usize, ..*old(self) }),
            !r ==> *final(self) == *old(self),
    {
        if self.decoding < self.concurrency {
            self.decoding = self.decoding + 1;
            true
        } else {
            false
        }
    }

    /// A decoder hands its batch to the queue; when the queue is full the
    /// decoder waits and nothing moves.
    pub fn send(&mut self) -> (r: bool)
        requires
            old(self).wf(),
        ensures
            final(self).wf(),
            r == (old(self).decoding > 0 && old(self).queued < old(self).capacity),
            r ==> (*final(self) == Residency {
                decoding: (old(self).decoding - 1) as usize,
                queued: (old(self).queued + 1) as usize,
                ..*old(self)
            }),
            !r ==> *final(self) == *old(self),
    {
        if self.decoding > 0 && self.queued < self.capacity {
            self.decoding = self.decoding - 1;
            self.queued = self.queued + 1;
            true
        } else {
            false
        }
    }

    /// The writer takes the oldest queued batch once it holds none.
    pub fn receive(&mut self) -> (r: bool)
        requires
            old(self).wf(),
        ensures
            final(self).wf(),
            r == (old(self).queued > 0 && old(self).writing == 0),
            r ==> (*final(self) == Residency {
                queued: (old(self).queued - 1) as usize,
                writing: 1,
                ..*old(self)
            }),
            !r ==> *final(self) == *old(self),
    {
        if self.queued > 0 && self.writing == 0 {
            self.queued = self.queued - 1;
            self.writing = 1;
            true
        } else {
            false
        }
    }

    /// The writer has written its batch and lets it go.
    pub fn written(&mut self) -> (r: bool)
        requires
            old(self).wf(),
        ensures
            final(self).wf(),
            r == (old(self).writing == 1),
            r ==> (*final(self) == Residency { writing: 0, ..*old(self) }),
            !r ==> *final(self) == *old(self),
    {
        if self.writing == 1 {
            self.writing = 0;
            true
        } else {
            false
        }
    }

    /// A decoder drops its batch on cancellation.
    pub fn drop_decoded(&mut self) -> (r: bool)
        requires
            old(self).wf(),
        ensures
            final(self).wf(),
            r == (old(self).decoding > 0),
            r ==> (*final(self) == Residency { decoding: (old(self).decoding - 1) as usize, ..*old(self) }),
            !r ==> *final(self) == *old(self),
    {
        if self.decoding > 0 {
            self.decoding = self.decoding - 1;
            true
        } else {
            false
        }
    }

    /// The number of batches held.
    pub fn resident_count(&self) -> (r: usize)
        requires
            self.wf(),
            self.concurrency + self.capacity + 1 <= usize::MAX,
        ensures
            r == self.resident(),
    {
        self.decoding + self.queued + self.writing
    }
}

/// Bounded memory: in every well-formed state the queue holds at most its
/// capacity and at most `concurrency + capacity + 1` batches are resident.
pub proof fn lemma_bounded_residency(r: Residency)
    requires
        r.wf(),
    ensures
        r.queued <= r.capacity,
        r.resident() <= r.concurrency + r.capacity + 1,
{
}

/// Every transition keeps the state well formed, so the bound holds along
/// every run.
pub proof fn lemma_bounded_queue<T>(q: BoundedQueue<T>)
    requires
        q.wf(),
    ensures
        q.items@.len() <= q.capacity,
{
}

} // verus!
