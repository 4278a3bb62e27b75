//! Per-thread on-CPU / off-CPU bookkeeping.
//!
//! Sampling interrupts only fire for threads that are running, so time a
//! thread spends switched out would be invisible. The handler turns each
//! off-CPU period that spans at least one sampling interval into a group of
//! synthetic samples, and it accumulates the time a thread did run so that
//! the next sample can carry it as its CPU delta.
//!
//! All times are raw trace timestamps; durations are in the same unit.

use vstd::prelude::*;

verus! {

/// The samples that stand for one off-CPU period: the thread went off the
/// CPU at `begin_timestamp`, came back at `end_timestamp`, and
/// `sample_count` sampling intervals passed in between.
#[derive(Debug, Clone, Copy, PartialEq, Eq)]
pub struct OffCpuSampleGroup {
    pub begin_timestamp: u64,
    pub end_timestamp: u64,
    pub sample_count: u64,
}

/// What the handler knows about one thread.
#[derive(Debug, Clone, Copy, PartialEq, Eq)]
pub struct ThreadContextSwitchData {
    /// When the thread was last switched out, while it is off the CPU.
    pub off_cpu_since: Option<u64>,
    /// From when on the thread's running time has not been accumulated
    /// yet, while it is on the CPU.
    pub on_cpu_since: Option<u64>,
    /// Running time that no sample has carried yet.
    pub accumulated_on_cpu: u64,
    /// When the thread was last sampled.
    pub last_sample_timestamp: Option<u64>,
}

/// `later - earlier`, zero where `later` is the smaller one.
pub open spec fn elapsed(earlier: u64, later: u64) -> u64 {
    if later >= earlier {
        (later - earlier) as u64
    } else {
        0
    }
}

/// `a + b`, limited to `u64::MAX`.
pub open spec fn capped_sum(a: u64, b: u64) -> u64 {
    if a + b > u64::MAX {
        u64::MAX
    } else {
        (a + b) as u64
    }
}

impl ThreadContextSwitchData {
    /// A thread of which nothing is known yet.
    pub open spec fn unknown() -> Self {
        ThreadContextSwitchData {
            off_cpu_since: None,
            on_cpu_since: None,
            accumulated_on_cpu: 0,
            last_sample_timestamp: None,
        }
    }

    pub fn new() -> (data: Self)
        ensures
            data == Self::unknown(),
    {
        ThreadContextSwitchData {
            off_cpu_since: None,
            on_cpu_since: None,
            accumulated_on_cpu: 0,
            last_sample_timestamp: None,
        }
    }

    /// The accumulated running time, with the current run up to `now`
    /// added if the thread is on the CPU.
    pub open spec fn accumulated_until(self, now: u64) -> u64 {
        match self.on_cpu_since {
            Some(since) => capped_sum(self.accumulated_on_cpu, elapsed(since, now)),
            None => self.accumulated_on_cpu,
        }
    }
}

impl Default for ThreadContextSwitchData {
    fn default() -> (data: Self)
        ensures
            data == Self::unknown(),
    {
        ThreadContextSwitchData::new()
    }
}

#[derive(Debug, Clone, Copy, PartialEq, Eq)]
pub struct ContextSwitchHandler {
    /// The sampling interval, in raw ticks.
    pub sampling_interval: u64,
}

impl ContextSwitchHandler {
    pub fn new(sampling_interval: u64) -> (handler: Self)
        ensures
            handler.sampling_interval == sampling_interval,
    {
        ContextSwitchHandler { sampling_interval }
    }

    /// How many whole sampling intervals fit between `off_since` and
    /// `now`. An interval of zero measures nothing.
    pub open spec fn missed_intervals(self, off_since: u64, now: u64) -> u64 {
        if self.sampling_interval == 0 {
            0
        } else {
            elapsed(off_since, now) / self.sampling_interval
        }
    }

    /// The group for an off-CPU period that ends at `now`: none if the
    /// thread is not off the CPU, or if the period is shorter than one
    /// sampling interval.
    pub open spec fn group_ending_at(self, thread: ThreadContextSwitchData, now: u64) -> Option<
        OffCpuSampleGroup,
    > {
        match thread.off_cpu_since {
            Some(since) => if self.missed_intervals(since, now) >= 1 {
                Some(
                    OffCpuSampleGroup {
                        begin_timestamp: since,
                        end_timestamp: now,
                        sample_count: self.missed_intervals(since, now),
                    },
                )
            } else {
                None
            },
            None => None,
        }
    }

    /// The thread after a switch-in at `now`: on the CPU since `now`.
    pub open spec fn after_switch_in(thread: ThreadContextSwitchData, now: u64)
        -> ThreadContextSwitchData {
        ThreadContextSwitchData { off_cpu_since: None, on_cpu_since: Some(now), ..thread }
    }

    /// The thread after a switch-out at `now`: off the CPU since `now`,
    /// with the run that ends here accumulated.
    pub open spec fn after_switch_out(thread: ThreadContextSwitchData, now: u64)
        -> ThreadContextSwitchData {
        ThreadContextSwitchData {
            off_cpu_since: Some(now),
            on_cpu_since: None,
            accumulated_on_cpu: thread.accumulated_until(now),
            ..thread
        }
    }

    /// The thread after a sample at `now`. A sample shows that the thread
    /// is running. If it was off the CPU, the sample stands in for the
    /// switch-in that was not seen; otherwise the run up to `now` is
    /// accumulated.
    pub open spec fn after_sample(thread: ThreadContextSwitchData, now: u64)
        -> ThreadContextSwitchData {
        ThreadContextSwitchData {
            off_cpu_since: None,
            on_cpu_since: Some(now),
            accumulated_on_cpu: if thread.off_cpu_since is Some {
                thread.accumulated_on_cpu
            } else {
                thread.accumulated_until(now)
            },
            last_sample_timestamp: Some(now),
        }
    }

    /// The thread after its CPU delta has been taken.
    pub open spec fn after_consume(thread: ThreadContextSwitchData) -> ThreadContextSwitchData {
        ThreadContextSwitchData { accumulated_on_cpu: 0, ..thread }
    }

    fn group_for(&self, thread: &ThreadContextSwitchData, now: u64) -> (group: Option<
        OffCpuSampleGroup,
    >)
        ensures
            group == self.group_ending_at(*thread, now),
    {
        match thread.off_cpu_since {
            Some(since) => {
                if self.sampling_interval == 0 {
                    return None;
                }
                let missed: u64 = now.saturating_sub(since) / self.sampling_interval;
                if missed >= 1 {
                    Some(
                        OffCpuSampleGroup {
                            begin_timestamp: since,
                            end_timestamp: now,
                            sample_count: missed,
                        },
                    )
                } else {
                    None
                }
            },
            None => None,
        }
    }

    fn run_until(thread: &ThreadContextSwitchData, now: u64) -> (total: u64)
        ensures
            total == thread.accumulated_until(now),
    {
        match thread.on_cpu_since {
            Some(since) => thread.accumulated_on_cpu.saturating_add(now.saturating_sub(since)),
            None => thread.accumulated_on_cpu,
        }
    }

    /// The thread was switched in at `timestamp`. Returns the group for
    /// the off-CPU period that ends here, if that period spans at least
    /// one sampling interval.
    pub fn handle_switch_in(&self, timestamp: u64, thread: &mut ThreadContextSwitchData) -> (group:
        Option<OffCpuSampleGroup>)
        ensures
            group == self.group_ending_at(*old(thread), timestamp),
            *final(thread) == Self::after_switch_in(*old(thread), timestamp),
    {
        let group = self.group_for(thread, timestamp);
        thread.off_cpu_since = None;
        thread.on_cpu_since = Some(timestamp);
        group
    }

    /// The thread was switched out at `timestamp`.
    pub fn handle_switch_out(&self, timestamp: u64, thread: &mut ThreadContextSwitchData)
        ensures
            *final(thread) == Self::after_switch_out(*old(thread), timestamp),
    {
        let total: u64 = Self::run_until(thread, timestamp);
        thread.accumulated_on_cpu = total;
        thread.off_cpu_since = Some(timestamp);
        thread.on_cpu_since = None;
    }

    /// The thread was sampled on the CPU at `timestamp`. Returns the group
    /// for an off-CPU period that no switch-in has ended, if there is one
    /// and it spans at least one sampling interval; a period whose group a
    /// switch-in already returned gives none here.
    pub fn handle_on_cpu_sample(&self, timestamp: u64, thread: &mut ThreadContextSwitchData)
        -> (group: Option<OffCpuSampleGroup>)
        ensures
            group == self.group_ending_at(*old(thread), timestamp),
            *final(thread) == Self::after_sample(*old(thread), timestamp),
    {
        let group = self.group_for(thread, timestamp);
        if thread.off_cpu_since.is_none() {
            let total: u64 = Self::run_until(thread, timestamp);
            thread.accumulated_on_cpu = total;
        }
        thread.off_cpu_since = None;
        thread.on_cpu_since = Some(timestamp);
        thread.last_sample_timestamp = Some(timestamp);
        group
    }

    /// Takes the running time accumulated since it was last taken.
    pub fn consume_cpu_delta(&self, thread: &mut ThreadContextSwitchData) -> (delta: u64)
        ensures
            delta == old(thread).accumulated_on_cpu,
            *final(thread) == Self::after_consume(*old(thread)),
    {
        let delta: u64 = thread.accumulated_on_cpu;
        thread.accumulated_on_cpu = 0;
        delta
    }

    /// A group is only made for a period of at least one interval, and it
    /// never ends before it begins.
    pub proof fn lemma_group_counts_at_least_one(
        self,
        thread: ThreadContextSwitchData,
        now: u64,
    )
        ensures
            self.group_ending_at(thread, now) matches Some(g) ==> g.sample_count >= 1
                && g.begin_timestamp <= g.end_timestamp && g.end_timestamp == now
                && thread.off_cpu_since == Some(g.begin_timestamp) && g.sample_count
                * self.sampling_interval <= g.end_timestamp - g.begin_timestamp,
    {
        if let Some(since) = thread.off_cpu_since {
            if self.missed_intervals(since, now) >= 1 {
                let d = elapsed(since, now);
                let i = self.sampling_interval;
                assert(i > 0);
                assert((d / i) * i <= d) by (nonlinear_arith)
                    requires
                        i > 0,
                        d >= 0,
                ;
                assert(now >= since);
            }
        }
    }

    /// Once a switch-in has ended an off-CPU period, neither a sample nor
    /// another switch-in yields a group until the thread is switched out
    /// again.
    pub proof fn lemma_group_is_returned_once(
        self,
        thread: ThreadContextSwitchData,
        switched_in: u64,
        later: u64,
    )
        ensures
            self.group_ending_at(Self::after_switch_in(thread, switched_in), later) is None,
            self.group_ending_at(Self::after_sample(thread, switched_in), later) is None,
    {
    }

    /// After the CPU delta has been taken, taking it again gives zero.
    pub proof fn lemma_consumed_delta_is_zero(thread: ThreadContextSwitchData)
        ensures
            Self::after_consume(thread).accumulated_on_cpu == 0,
            Self::after_consume(Self::after_consume(thread)) == Self::after_consume(thread),
    {
    }
}

} // verus!
