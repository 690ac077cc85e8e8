use vstd::prelude::*;

verus! {

/// What the background writer does next.
#[derive(Debug, Clone, Copy, PartialEq, Eq, Structural)]
pub enum WriteStep {
    /// Nothing is left to write: the writer stops.
    Finish,
    /// Wait this many milliseconds, then ask again.
    Sleep(u64),
    /// Write the ledger now, then report with `finish_write`.
    Write,
}

/// The debouncing write-back state machine of the usage ledger.
///
/// Mutations mark the ledger dirty and stamp the time; only the first mutation
/// after the writer went idle asks for a writer to be started. The writer
/// waits until no mutation has come for `write_delay_ms`, writes once, and
/// goes idle.
#[derive(Debug, Clone, Copy, PartialEq, Eq, Structural)]
pub struct WriteScheduler {
    /// The ledger has changes that are not written yet.
    pub pending: bool,
    /// A writer is running.
    pub worker_active: bool,
    /// Time of the last mutation, in milliseconds.
    pub last_mutation_ms: u64,
    /// Quiet period before a write, in milliseconds.
    pub write_delay_ms: u64,
}

impl WriteScheduler {
    /// The state after a mutation at time `now`.
    pub open spec fn after_mutation(self, now: u64) -> WriteScheduler {
        WriteScheduler { pending: true, worker_active: true, last_mutation_ms: now, ..self }
    }

    /// Milliseconds since the last mutation, zero if the clock reads earlier.
    pub open spec fn elapsed(self, now: u64) -> u64 {
        if now >= self.last_mutation_ms {
            (now - self.last_mutation_ms) as u64
        } else {
            0
        }
    }

    /// What the writer does when it looks at time `now`.
    pub open spec fn step_at(self, now: u64) -> WriteStep {
        if !self.pending {
            WriteStep::Finish
        } else if self.elapsed(now) < self.write_delay_ms {
            WriteStep::Sleep((self.write_delay_ms - self.elapsed(now)) as u64)
        } else {
            WriteStep::Write
        }
    }

    /// The state once the writer has looked at time `now`.
    pub open spec fn after_step(self, now: u64) -> WriteScheduler {
        if self.step_at(now) is Finish {
            WriteScheduler { worker_active: false, ..self }
        } else {
            self
        }
    }

    /// The state after a write attempt that succeeded or not.
    pub open spec fn after_write(self, written: bool) -> WriteScheduler {
        WriteScheduler { pending: self.pending && !written, worker_active: false, ..self }
    }

    /// An idle, clean scheduler with the given quiet period.
    pub fn new(write_delay_ms: u64) -> (r: Self)
        ensures
            !r.pending,
            !r.worker_active,
            r.last_mutation_ms == 0,
            r.write_delay_ms == write_delay_ms,
    {
        WriteScheduler { pending: false, worker_active: false, last_mutation_ms: 0, write_delay_ms }
    }

    /// Record a mutation at time `now_ms`; the result says whether a writer
    /// must be started.
    pub fn schedule_write(&mut self, now_ms: u64) -> (start_writer: bool)
        ensures
            *final(self) == old(self).after_mutation(now_ms),
            start_writer == !old(self).worker_active,
    {
        let start_writer = !self.worker_active;
        self.pending = true;
        self.last_mutation_ms = now_ms;
        self.worker_active = true;
        start_writer
    }

    /// The writer's next step at time `now_ms`.
    pub fn next_step(&mut self, now_ms: u64) -> (r: WriteStep)
        ensures
            r == old(self).step_at(now_ms),
            *final(self) == old(self).after_step(now_ms),
    {
        if !self.pending {
            self.worker_active = false;
            return WriteStep::Finish;
        }
        let elapsed = if now_ms >= self.last_mutation_ms {
            now_ms - self.last_mutation_ms
        } else {
            0
        };
        if elapsed < self.write_delay_ms {
            WriteStep::Sleep(self.write_delay_ms - elapsed)
        } else {
            WriteStep::Write
        }
    }

    /// Report the outcome of a write; the writer then goes idle. A failed write
    /// leaves the ledger dirty, so that the next mutation tries again.
    pub fn finish_write(&mut self, written: bool)
        ensures
            *final(self) == old(self).after_write(written),
    {
        if written {
            self.pending = false;
        }
        self.worker_active = false;
    }
}

/// The state after mutations at each of `times`, in order.
pub open spec fn after_burst(s: WriteScheduler, times: Seq<u64>) -> WriteScheduler
    decreases times.len(),
{
    if times.len() == 0 {
        s
    } else {
        after_burst(s, times.drop_last()).after_mutation(times.last())
    }
}

/// How many of the mutations at `times` ask for a writer to be started.
pub open spec fn writers_started(s: WriteScheduler, times: Seq<u64>) -> nat
    decreases times.len(),
{
    if times.len() == 0 {
        0
    } else {
        writers_started(s, times.drop_last()) + if after_burst(s, times.drop_last()).worker_active {
            0nat
        } else {
            1nat
        }
    }
}

/// Debounce: from an idle scheduler, a burst of mutations starts exactly one
/// writer. That writer waits while the last mutation is younger than the
/// quiet period, writes once it is not, and after a successful write the
/// ledger is clean and no writer runs, so the burst costs a single write.
pub proof fn lemma_burst_writes_once(s: WriteScheduler, times: Seq<u64>, now: u64)
    requires
        !s.worker_active,
        times.len() > 0,
    ensures
        writers_started(s, times) == 1,
        after_burst(s, times).pending,
        after_burst(s, times).worker_active,
        after_burst(s, times).last_mutation_ms == times.last(),
        times.last() <= now < times.last() + s.write_delay_ms ==> after_burst(s, times).step_at(now) is Sleep,
        now >= times.last() + s.write_delay_ms ==> after_burst(s, times).step_at(now) is Write,
        !after_burst(s, times).after_write(true).pending,
        !after_burst(s, times).after_write(true).worker_active,
    decreases times.len(),
{
    lemma_burst_keeps_delay(s, times);
    if times.len() > 1 {
        lemma_burst_writes_once(s, times.drop_last(), now);
    } else {
        assert(after_burst(s, times.drop_last()) == s);
        assert(writers_started(s, times.drop_last()) == 0);
    }
}

proof fn lemma_burst_keeps_delay(s: WriteScheduler, times: Seq<u64>)
    ensures
        after_burst(s, times).write_delay_ms == s.write_delay_ms,
    decreases times.len(),
{
    if times.len() > 0 {
        lemma_burst_keeps_delay(s, times.drop_last());
    }
}

/// While the ledger is dirty the writer's looks never stop it or change the
/// state, so polls between the mutations of a burst do not matter: the burst
/// still costs one writer and one write.
pub proof fn lemma_poll_while_pending(s: WriteScheduler, now: u64)
    requires
        s.pending,
    ensures
        !(s.step_at(now) is Finish),
        s.after_step(now) == s,
{
}

} // verus!
