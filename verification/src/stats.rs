//! Rolling timing samples of finished path tasks.
//!
//! Two buffers, one of search durations and one of dispatch delays, each keep
//! the most recent [`STATS_CAPACITY`] samples, newest first. A sample is a
//! whole number of time units; the caller chooses the unit.

use std::collections::VecDeque;
use vstd::prelude::*;

verus! {

/// How many samples each buffer keeps.
pub const STATS_CAPACITY: usize = 100;

/// A buffer after a sample has come in: the sample stands first, the older
/// ones follow, and what no longer fits falls off the end.
pub open spec fn with_sample(samples: Seq<u64>, sample: u64) -> Seq<u64> {
    let longer = seq![sample] + samples;
    if longer.len() > STATS_CAPACITY {
        longer.take(STATS_CAPACITY as int)
    } else {
        longer
    }
}

/// The sum of the samples.
pub open spec fn total(samples: Seq<u64>) -> int
    decreases samples.len(),
{
    if samples.len() == 0 {
        0
    } else {
        total(samples.drop_last()) + samples.last()
    }
}

/// The average of the samples, rounded down; zero where there are none.
pub open spec fn mean(samples: Seq<u64>) -> int {
    if samples.len() == 0 {
        0
    } else {
        total(samples) / (samples.len() as int)
    }
}

pub proof fn lemma_total_bound(samples: Seq<u64>)
    ensures
        0 <= total(samples) <= samples.len() * u64::MAX,
    decreases samples.len(),
{
    if samples.len() > 0 {
        lemma_total_bound(samples.drop_last());
        assert((samples.len() - 1) * u64::MAX + u64::MAX == samples.len() * u64::MAX)
            by (nonlinear_arith);
    }
}

/// What the statistics hold, mathematically.
pub struct StatsView {
    pub durations: Seq<u64>,
    pub delays: Seq<u64>,
}

impl StatsView {
    /// Neither buffer holds more than its capacity. This holds of new
    /// statistics and after every sample taken in.
    pub open spec fn bounded(self) -> bool {
        self.durations.len() <= STATS_CAPACITY && self.delays.len() <= STATS_CAPACITY
    }
}

/// The timing samples of the path tasks that have finished.
pub struct Stats {
    pathfinding_duration: VecDeque<u64>,
    task_delay: VecDeque<u64>,
}

impl View for Stats {
    type V = StatsView;

    closed spec fn view(&self) -> StatsView {
        StatsView { durations: self.pathfinding_duration@, delays: self.task_delay@ }
    }
}

/// Puts a sample in front of a buffer and cuts the buffer to its capacity.
fn push_sample(samples: &mut VecDeque<u64>, sample: u64)
    ensures
        final(samples)@ == with_sample(old(samples)@, sample),
        final(samples)@.len() <= STATS_CAPACITY,
{
    samples.push_front(sample);
    samples.truncate(STATS_CAPACITY);
}

/// The average of a buffer.
fn average(samples: &VecDeque<u64>) -> (r: u64)
    ensures
        r == mean(samples@),
{
    let count: usize = samples.len();
    if count == 0 {
        return 0;
    }
    let mut sum: u128 = 0;
    let mut n: usize = 0;
    while n < count
        invariant
            count == samples@.len(),
            n <= count,
            sum == total(samples@.take(n as int)),
            sum <= n * u64::MAX,
        decreases count - n,
    {
        proof {
            let longer = samples@.take(n as int + 1);
            assert(longer.drop_last() == samples@.take(n as int));
            assert(longer.last() == samples@[n as int]);
            assert((n + 1) * u64::MAX == n * u64::MAX + u64::MAX) by (nonlinear_arith);
            assert(n * u64::MAX <= usize::MAX * u64::MAX) by (nonlinear_arith)
                requires
                    n <= usize::MAX,
            ;
            assert(usize::MAX * u64::MAX <= u64::MAX * u64::MAX) by (nonlinear_arith)
                requires
                    usize::MAX <= u64::MAX,
            ;
        }
        sum = sum + samples[n] as u128;
        n = n + 1;
    }
    proof {
        assert(samples@.take(count as int) == samples@);
        lemma_total_bound(samples@);
        assert(total(samples@) / (count as int) <= total(samples@)) by (nonlinear_arith)
            requires
                count >= 1,
                total(samples@) >= 0,
        ;
        assert(total(samples@) / (count as int) <= u64::MAX) by (nonlinear_arith)
            requires
                count >= 1,
                0 <= total(samples@) <= count * u64::MAX,
        ;
    }
    (sum / (count as u128)) as u64
}

/// The samples of a buffer, newest first.
fn listed(samples: &VecDeque<u64>) -> (r: Vec<u64>)
    ensures
        r@ == samples@,
{
    let mut out: Vec<u64> = Vec::new();
    let mut n: usize = 0;
    while n < samples.len()
        invariant
            n <= samples@.len(),
            out@ == samples@.take(n as int),
        decreases samples@.len() - n,
    {
        out.push(samples[n]);
        assert(samples@.take(n as int + 1) == samples@.take(n as int).push(samples@[n as int]));
        n = n + 1;
    }
    assert(samples@.take(n as int) == samples@);
    out
}

impl Stats {
    /// Statistics without samples.
    pub fn new() -> (r: Stats)
        ensures
            r@.durations == Seq::<u64>::empty(),
            r@.delays == Seq::<u64>::empty(),
            r@.bounded(),
    {
        Stats { pathfinding_duration: VecDeque::new(), task_delay: VecDeque::new() }
    }

    /// Takes in the two samples of a finished task. Each goes to the front of
    /// its buffer, and a buffer that is full drops its oldest sample.
    pub fn record(&mut self, duration: u64, delay: u64)
        ensures
            final(self)@.durations == with_sample(old(self)@.durations, duration),
            final(self)@.delays == with_sample(old(self)@.delays, delay),
            final(self)@.bounded(),
    {
        push_sample(&mut self.pathfinding_duration, duration);
        push_sample(&mut self.task_delay, delay);
    }

    /// The average search duration of the samples kept, rounded down.
    pub fn average_duration(&self) -> (r: u64)
        ensures
            r == mean(self@.durations),
    {
        average(&self.pathfinding_duration)
    }

    /// The average dispatch delay of the samples kept, rounded down.
    pub fn average_delay(&self) -> (r: u64)
        ensures
            r == mean(self@.delays),
    {
        average(&self.task_delay)
    }

    /// The search durations kept, newest first.
    pub fn durations(&self) -> (r: Vec<u64>)
        ensures
            r@ == self@.durations,
    {
        listed(&self.pathfinding_duration)
    }

    /// The dispatch delays kept, newest first.
    pub fn delays(&self) -> (r: Vec<u64>)
        ensures
            r@ == self@.delays,
    {
        listed(&self.task_delay)
    }
}

impl Default for Stats {
    fn default() -> (r: Stats)
        ensures
            r@.durations == Seq::<u64>::empty(),
            r@.delays == Seq::<u64>::empty(),
    {
        Stats::new()
    }
}

/// A buffer never grows past its capacity, and after a sample has come in it
/// starts with that sample and goes on with the samples it had, in their old
/// order, as far as they fit.
pub proof fn law_newest_first(samples: Seq<u64>, sample: u64)
    ensures
        with_sample(samples, sample).len() == if samples.len() < STATS_CAPACITY {
            samples.len() as int + 1
        } else {
            STATS_CAPACITY as int
        },
        with_sample(samples, sample)[0] == sample,
        forall|n: int|
            1 <= n < with_sample(samples, sample).len() ==> with_sample(samples, sample)[n]
                == samples[n - 1],
{
}

} // verus!
