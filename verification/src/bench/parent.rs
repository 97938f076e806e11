//! What a parent counts while it forks and waits.

use vstd::prelude::*;

verus! {

/// Fork, exit and wait cycles within a stretch of time.
#[derive(Clone, Copy, Debug, PartialEq, Eq, Structural)]
pub struct Throughput {
    pub start: usize,
    pub count: usize,
}

/// Length of the stretch.
pub const THROUGHPUT_TICKS: usize = 100;

impl Throughput {
    pub fn new(now: usize) -> (r: Self)
        ensures
            r.start == now,
            r.count == 0,
    {
        Throughput { start: now, count: 0 }
    }

    /// One more cycle is complete.
    pub fn completed(&mut self)
        requires
            old(self).count < usize::MAX,
        ensures
            final(self).count == old(self).count + 1,
            final(self).start == old(self).start,
    {
        self.count = self.count + 1;
    }

    /// Ticks since the start.
    pub fn elapsed(&self, now: usize) -> (r: usize)
        requires
            self.start <= now,
        ensures
            r == now - self.start,
    {
        now - self.start
    }

    /// Whether there is another cycle at time `now`.
    pub fn goes_on(&self, now: usize) -> (b: bool)
        requires
            self.start <= now,
        ensures
            b == (now - self.start < THROUGHPUT_TICKS),
    {
        now - self.start < THROUGHPUT_TICKS
    }
}

/// Children that a parent tries to create.
pub const TARGET_CHILDREN: usize = 60;

/// How many children the process table takes.
#[derive(Clone, Copy, Debug, PartialEq, Eq, Structural)]
pub struct Acceptance {
    pub accepted: usize,
    pub completed: usize,
    pub fork_failed: bool,
    /// Waits done so far.
    pub waits: usize,
}

impl Acceptance {
    /// A child is waited for at most once, and no more complete than were
    /// waited for.
    pub open spec fn wf(self) -> bool {
        self.completed <= self.waits <= self.accepted <= TARGET_CHILDREN
    }

    pub fn new() -> (r: Self)
        ensures
            r.wf(),
            r.accepted == 0,
            r.completed == 0,
            r.waits == 0,
            !r.fork_failed,
    {
        Acceptance { accepted: 0, completed: 0, fork_failed: false, waits: 0 }
    }

    /// Whether to fork another child: until the target is reached or a fork
    /// fails.
    pub fn forks_on(&self) -> (b: bool)
        ensures
            b == (self.accepted < TARGET_CHILDREN && !self.fork_failed),
    {
        self.accepted < TARGET_CHILDREN && !self.fork_failed
    }

    /// A fork succeeded or failed.
    pub fn forked(&mut self, success: bool)
        requires
            old(self).wf(),
            old(self).accepted < TARGET_CHILDREN,
        ensures
            final(self).wf(),
            *final(self) == (if success {
                Acceptance { accepted: (old(self).accepted + 1) as usize, ..*old(self) }
            } else {
                Acceptance { fork_failed: true, ..*old(self) }
            }),
    {
        if success {
            self.accepted = self.accepted + 1;
        } else {
            self.fork_failed = true;
        }
    }

    /// Whether to wait for another child: once for each that was accepted.
    pub fn waits_on(&self) -> (b: bool)
        ensures
            b == (self.waits < self.accepted),
    {
        self.waits < self.accepted
    }

    /// A wait succeeded or failed.
    pub fn waited(&mut self, success: bool)
        requires
            old(self).wf(),
            old(self).waits < old(self).accepted,
        ensures
            final(self).wf(),
            *final(self) == (Acceptance {
                waits: (old(self).waits + 1) as usize,
                completed: (old(self).completed + (if success {
                    1int
                } else {
                    0
                })) as usize,
                ..*old(self)
            }),
    {
        self.waits = self.waits + 1;
        if success {
            self.completed = self.completed + 1;
        }
    }
}

} // verus!
