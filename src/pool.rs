//! The bookkeeping of the worker pool and of open connections: admission
//! against a bounded pending count, the parker's wake-up tokens, and the
//! count of live connections.
use vstd::prelude::*;

verus! {

/// Wake-up tokens for parked workers: a notification leaves a token (at
/// most `max_tokens` wait to be taken), and a waiter goes on only by
/// taking one, so no wake-up is lost when notifications come first.
pub struct Parker {
    tokens: usize,
    max_tokens: usize,
}

impl Parker {
    pub closed spec fn tokens(&self) -> nat {
        self.tokens as nat
    }

    pub closed spec fn max_tokens(&self) -> nat {
        self.max_tokens as nat
    }

    pub open spec fn well_formed(&self) -> bool {
        self.tokens() <= self.max_tokens()
    }

    pub fn new(max_tokens: usize) -> (r: Parker)
        ensures
            r.tokens() == 0,
            r.max_tokens() == max_tokens,
            r.well_formed(),
    {
        Parker { tokens: 0, max_tokens }
    }

    /// Takes a token if there is one; `false` means the caller must block
    /// and try again once signalled.
    pub fn wait(&mut self) -> (r: bool)
        requires
            old(self).well_formed(),
        ensures
            final(self).well_formed(),
            final(self).max_tokens() == old(self).max_tokens(),
            r == (old(self).tokens() > 0),
            r ==> final(self).tokens() == old(self).tokens() - 1,
            !r ==> final(self).tokens() == old(self).tokens(),
    {
        if self.tokens == 0 {
            false
        } else {
            self.tokens = self.tokens - 1;
            true
        }
    }

    /// Leaves a token unless `max_tokens` are already waiting; `true` means
    /// one parked worker should be signalled.
    pub fn notify_one(&mut self) -> (r: bool)
        requires
            old(self).well_formed(),
        ensures
            final(self).well_formed(),
            final(self).max_tokens() == old(self).max_tokens(),
            r == (old(self).tokens() < old(self).max_tokens()),
            r ==> final(self).tokens() == old(self).tokens() + 1,
            !r ==> final(self).tokens() == old(self).tokens(),
    {
        if self.tokens < self.max_tokens {
            self.tokens = self.tokens + 1;
            true
        } else {
            false
        }
    }
}

/// The jobs handed to the pool and not yet taken up by a worker, with the
/// bound beyond which new jobs are refused. It also records, as ghost
/// counts, every increment and decrement it has seen.
pub struct PendingCounter {
    pending: usize,
    queue_size: usize,
    increments: Ghost<nat>,
    decrements: Ghost<nat>,
}

impl PendingCounter {
    pub closed spec fn pending(&self) -> nat {
        self.pending as nat
    }

    pub closed spec fn queue_size(&self) -> nat {
        self.queue_size as nat
    }

    pub closed spec fn increments(&self) -> nat {
        self.increments@
    }

    pub closed spec fn decrements(&self) -> nat {
        self.decrements@
    }

    /// The count is what the increments left after the decrements, and it
    /// never exceeds the bound.
    pub open spec fn well_formed(&self) -> bool {
        &&& self.pending() + self.decrements() == self.increments()
        &&& self.pending() <= self.queue_size()
    }

    pub fn new(queue_size: usize) -> (r: PendingCounter)
        ensures
            r.well_formed(),
            r.pending() == 0,
            r.queue_size() == queue_size,
            r.increments() == 0,
            r.decrements() == 0,
    {
        PendingCounter { pending: 0, queue_size, increments: Ghost(0), decrements: Ghost(0) }
    }

    pub fn pending_now(&self) -> (r: usize)
        ensures
            r == self.pending(),
    {
        self.pending
    }

    /// Admission: a job is refused when `queue_size` jobs are pending;
    /// otherwise it is counted before it is queued.
    pub fn try_admit(&mut self) -> (r: bool)
        requires
            old(self).well_formed(),
        ensures
            final(self).well_formed(),
            final(self).queue_size() == old(self).queue_size(),
            r == (old(self).pending() < old(self).queue_size()),
            r ==> final(self).pending() == old(self).pending() + 1 && final(self).increments()
                == old(self).increments() + 1 && final(self).decrements() == old(self).decrements(),
            !r ==> *final(self) == *old(self),
    {
        if self.pending >= self.queue_size {
            false
        } else {
            self.pending = self.pending + 1;
            self.increments = Ghost(self.increments@ + 1);
            true
        }
    }

    /// A worker took a job off the queue.
    pub fn complete(&mut self)
        requires
            old(self).well_formed(),
            old(self).pending() > 0,
        ensures
            final(self).well_formed(),
            final(self).queue_size() == old(self).queue_size(),
            final(self).pending() == old(self).pending() - 1,
            final(self).increments() == old(self).increments(),
            final(self).decrements() == old(self).decrements() + 1,
    {
        self.pending = self.pending - 1;
        self.decrements = Ghost(self.decrements@ + 1);
    }
}

/// When nothing is pending, the pool has counted down exactly as often as
/// it counted up.
pub proof fn lemma_pending_balanced_at_rest(c: PendingCounter)
    requires
        c.well_formed(),
        c.pending() == 0,
    ensures
        c.increments() == c.decrements(),
{
}

/// The number of connections being served, with ghost counts of every
/// opening and closing.
pub struct ConnectionCount {
    active: usize,
    opened: Ghost<nat>,
    closed: Ghost<nat>,
}

impl ConnectionCount {
    pub closed spec fn active(&self) -> nat {
        self.active as nat
    }

    pub closed spec fn opened(&self) -> nat {
        self.opened@
    }

    pub closed spec fn closed(&self) -> nat {
        self.closed@
    }

    pub open spec fn well_formed(&self) -> bool {
        self.active() + self.closed() == self.opened()
    }

    pub fn new() -> (r: ConnectionCount)
        ensures
            r.well_formed(),
            r.active() == 0,
            r.opened() == 0,
            r.closed() == 0,
    {
        ConnectionCount { active: 0, opened: Ghost(0), closed: Ghost(0) }
    }

    pub fn active_now(&self) -> (r: usize)
        ensures
            r == self.active(),
    {
        self.active
    }

    /// A connection starts being served.
    pub fn open(&mut self)
        requires
            old(self).well_formed(),
            old(self).active() < usize::MAX,
        ensures
            final(self).well_formed(),
            final(self).active() == old(self).active() + 1,
            final(self).opened() == old(self).opened() + 1,
            final(self).closed() == old(self).closed(),
    {
        self.active = self.active + 1;
        self.opened = Ghost(self.opened@ + 1);
    }

    /// A connection is done with, however its handling ended.
    pub fn close(&mut self)
        requires
            old(self).well_formed(),
            old(self).active() > 0,
        ensures
            final(self).well_formed(),
            final(self).active() == old(self).active() - 1,
            final(self).opened() == old(self).opened(),
            final(self).closed() == old(self).closed() + 1,
    {
        self.active = self.active - 1;
        self.closed = Ghost(self.closed@ + 1);
    }
}

/// Once every connection that was opened has been closed, none is counted
/// as active.
pub proof fn lemma_all_closed_means_idle(c: ConnectionCount)
    requires
        c.well_formed(),
        c.closed() == c.opened(),
    ensures
        c.active() == 0,
{
}


} // verus!
