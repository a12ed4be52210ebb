use vstd::prelude::*;

use crate::types::{CrawlerError, Link};

verus! {

/// Where a crawl stands: work queued or in flight, only work in flight, or
/// nothing left.
#[derive(Debug, Clone, Copy, PartialEq, Eq, Structural)]
pub enum FrontierState {
    Running,
    Draining,
    Done,
}

/// The frontier: a bounded first-in first-out queue of URLs waiting for a
/// fetch, and the count of URLs handed out and not yet finished.
pub struct UrlScheduler {
    queue: Vec<Link>,
    capacity: usize,
    max_in_flight: usize,
    in_flight: usize,
}

impl UrlScheduler {
    /// The URLs waiting, oldest first.
    pub closed spec fn pending(&self) -> Seq<Link> {
        self.queue@
    }

    /// How many URLs may wait at once.
    pub closed spec fn capacity(&self) -> nat {
        self.capacity as nat
    }

    /// How many URLs may be in flight at once.
    pub closed spec fn max_in_flight(&self) -> nat {
        self.max_in_flight as nat
    }

    /// The URLs handed out and not yet finished.
    pub closed spec fn in_flight(&self) -> nat {
        self.in_flight as nat
    }

    pub closed spec fn wf(&self) -> bool {
        &&& self.queue@.len() <= self.capacity
        &&& self.in_flight <= self.max_in_flight
    }

    /// A well-formed frontier holds no more waiting URLs than its capacity
    /// and no more URLs in flight than its limit.
    pub proof fn lemma_bounds(&self)
        requires
            self.wf(),
        ensures
            self.pending().len() <= self.capacity(),
            self.in_flight() <= self.max_in_flight(),
    {
    }

    /// The state that the queue and the in-flight count give.
    pub open spec fn state_of(pending: nat, in_flight: nat) -> FrontierState {
        if pending > 0 {
            FrontierState::Running
        } else if in_flight > 0 {
            FrontierState::Draining
        } else {
            FrontierState::Done
        }
    }

    /// An empty frontier holding up to `buffer` waiting URLs, with at most
    /// `max_in_flight` handed out at once.
    pub fn new(buffer: usize, max_in_flight: usize) -> (r: UrlScheduler)
        ensures
            r.wf(),
            r.pending() == Seq::<Link>::empty(),
            r.capacity() == buffer,
            r.max_in_flight() == max_in_flight,
            r.in_flight() == 0,
    {
        UrlScheduler { queue: Vec::new(), capacity: buffer, max_in_flight, in_flight: 0 }
    }

    /// Queues a URL; a full queue refuses it.
    pub fn send(&mut self, url: Link) -> (r: Result<(), CrawlerError>)
        requires
            old(self).wf(),
        ensures
            final(self).wf(),
            final(self).capacity() == old(self).capacity(),
            final(self).max_in_flight() == old(self).max_in_flight(),
            final(self).in_flight() == old(self).in_flight(),
            old(self).pending().len() < old(self).capacity()
                ==> r is Ok && final(self).pending() == old(self).pending().push(url),
            old(self).pending().len() >= old(self).capacity()
                ==> final(self).pending() == old(self).pending() && (match r {
                    Err(CrawlerError::NotScheduled { url: u }) => u@ == url@,
                    _ => false,
                }),
    {
        if self.queue.len() < self.capacity {
            self.queue.push(url);
            Ok(())
        } else {
            Err(CrawlerError::NotScheduled { url })
        }
    }

    /// Hands out the oldest waiting URL, unless none waits or the in-flight
    /// limit is reached.
    pub fn recv(&mut self) -> (r: Option<Link>)
        requires
            old(self).wf(),
        ensures
            final(self).wf(),
            final(self).capacity() == old(self).capacity(),
            final(self).max_in_flight() == old(self).max_in_flight(),
            (old(self).pending().len() > 0 && old(self).in_flight() < old(self).max_in_flight())
                ==> r == Some(old(self).pending()[0])
                && final(self).pending() == old(self).pending().drop_first()
                && final(self).in_flight() == old(self).in_flight() + 1,
            !(old(self).pending().len() > 0 && old(self).in_flight() < old(self).max_in_flight())
                ==> r.is_none()
                && final(self).pending() == old(self).pending()
                && final(self).in_flight() == old(self).in_flight(),
    {
        if self.queue.len() > 0 && self.in_flight < self.max_in_flight {
            let url = self.queue.remove(0);
            self.in_flight = self.in_flight + 1;
            proof {
                assert(self.queue@ =~= old(self).queue@.drop_first());
            }
            Some(url)
        } else {
            None
        }
    }

    /// Marks one URL handed out earlier as finished.
    pub fn finish(&mut self)
        requires
            old(self).wf(),
            old(self).in_flight() > 0,
        ensures
            final(self).wf(),
            final(self).pending() == old(self).pending(),
            final(self).capacity() == old(self).capacity(),
            final(self).max_in_flight() == old(self).max_in_flight(),
            final(self).in_flight() == old(self).in_flight() - 1,
    {
        self.in_flight = self.in_flight - 1;
    }

    /// The number of URLs in flight.
    pub fn active(&self) -> (r: usize)
        ensures
            r == self.in_flight(),
    {
        self.in_flight
    }

    /// Whether one more URL fits in the queue.
    pub fn has_room(&self) -> (r: bool)
        ensures
            r == (self.pending().len() < self.capacity()),
    {
        self.queue.len() < self.capacity
    }

    /// The number of URLs waiting.
    pub fn len(&self) -> (r: usize)
        ensures
            r == self.pending().len(),
    {
        self.queue.len()
    }

    pub fn state(&self) -> (r: FrontierState)
        ensures
            r == Self::state_of(self.pending().len(), self.in_flight()),
    {
        Self::state_of_counts(self.queue.len(), self.in_flight)
    }

    /// The state for `pending` waiting URLs and `in_flight` handed out.
    pub fn state_of_counts(pending: usize, in_flight: usize) -> (r: FrontierState)
        ensures
            r == Self::state_of(pending as nat, in_flight as nat),
    {
        if pending > 0 {
            FrontierState::Running
        } else if in_flight > 0 {
            FrontierState::Draining
        } else {
            FrontierState::Done
        }
    }
}

} // verus!
