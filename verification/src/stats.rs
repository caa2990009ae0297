use vstd::prelude::*;

verus! {

use std::collections::VecDeque;
use crate::digest::LatencySketch;
use crate::samples::{
    sum_of, seq_min, seq_max, min_of, max_of, lemma_sum_push, lemma_min_max_push, lemma_sum_bound,
    lemma_average_in_range, lemma_min_max_bounds,
};
use vstd::arithmetic::div_mod::{lemma_div_by_multiple, lemma_div_is_ordered};
use vstd::string::StringExecFns;
use crate::text::dec_str;

/// Greatest number of outcomes kept in the rolling window.
pub const MAX_HISTORY: usize = 300;

/// Number of samples buffered before they are merged into the sketch.
pub const BUFFER_SIZE: usize = 10;

/// Outcome of a single probe attempt. Latencies are in microseconds.
#[derive(Debug, Clone)]
pub enum PingResult {
    Success(u64),
    Timeout,
    Error(String),
}

/// Latency carried by a successful outcome.
pub open spec fn outcome_latency(r: PingResult) -> Option<u64> {
    match r {
        PingResult::Success(d) => Some(d),
        _ => None,
    }
}

/// Number of successful outcomes in a log.
pub open spec fn count_successes(log: Seq<PingResult>) -> nat
    decreases log.len(),
{
    if log.len() == 0 {
        0
    } else {
        (count_successes(log.drop_last()) + (if log.last() is Success {
            1nat
        } else {
            0nat
        })) as nat
    }
}

/// Latencies of the successful outcomes of a log, in order.
pub open spec fn success_latencies(log: Seq<PingResult>) -> Seq<u64>
    decreases log.len(),
{
    if log.len() == 0 {
        Seq::empty()
    } else {
        match log.last() {
            PingResult::Success(d) => success_latencies(log.drop_last()).push(d),
            _ => success_latencies(log.drop_last()),
        }
    }
}

/// Length of the run of successes at the end of a log.
pub open spec fn trailing_streak(log: Seq<PingResult>) -> nat
    decreases log.len(),
{
    if log.len() == 0 {
        0
    } else if log.last() is Success {
        trailing_streak(log.drop_last()) + 1
    } else {
        0
    }
}

pub open spec fn nat_larger(a: nat, b: nat) -> nat {
    if a >= b {
        a
    } else {
        b
    }
}

/// Length of the longest run of successes anywhere in a log.
pub open spec fn best_streak(log: Seq<PingResult>) -> nat
    decreases log.len(),
{
    if log.len() == 0 {
        0
    } else {
        nat_larger(best_streak(log.drop_last()), trailing_streak(log))
    }
}

/// Latency of the last outcome, if that outcome was a success: exactly the
/// reference against which the next jitter difference is taken.
pub open spec fn last_success_latency(log: Seq<PingResult>) -> Option<u64> {
    if log.len() == 0 {
        None
    } else {
        outcome_latency(log.last())
    }
}

pub open spec fn abs_diff_u64(a: u64, b: u64) -> u64 {
    if a >= b {
        (a - b) as u64
    } else {
        (b - a) as u64
    }
}

/// Absolute latency difference contributed by two adjacent outcomes:
/// only a pair of adjacent successes contributes.
pub open spec fn jitter_pair_sum(a: PingResult, b: PingResult) -> nat {
    match (a, b) {
        (PingResult::Success(x), PingResult::Success(y)) => abs_diff_u64(x, y) as nat,
        _ => 0,
    }
}

pub open spec fn jitter_pair_count(a: PingResult, b: PingResult) -> nat {
    match (a, b) {
        (PingResult::Success(x), PingResult::Success(y)) => 1,
        _ => 0,
    }
}

/// Sum of absolute differences between adjacent successful latencies.
/// Any loss interrupts the pairing, so no difference spans a loss.
pub open spec fn jitter_sum_of(log: Seq<PingResult>) -> nat
    decreases log.len(),
{
    if log.len() < 2 {
        0
    } else {
        jitter_sum_of(log.drop_last()) + jitter_pair_sum(log[log.len() - 2], log.last())
    }
}

/// Number of adjacent success pairs in a log.
pub open spec fn jitter_count_of(log: Seq<PingResult>) -> nat
    decreases log.len(),
{
    if log.len() < 2 {
        0
    } else {
        jitter_count_of(log.drop_last()) + jitter_pair_count(log[log.len() - 2], log.last())
    }
}

/// Mean of the adjacent-success differences, or `None` before any pair exists.
pub open spec fn jitter_of(log: Seq<PingResult>) -> Option<u64> {
    if jitter_count_of(log) == 0 {
        None
    } else {
        Some((jitter_sum_of(log) / jitter_count_of(log)) as u64)
    }
}

/// How the statistics of one recorded outcome relate to the log so far.
pub proof fn lemma_log_push(log: Seq<PingResult>, r: PingResult)
    ensures
        count_successes(log.push(r)) == count_successes(log) + (if r is Success {
            1nat
        } else {
            0nat
        }),
        success_latencies(log.push(r)) == (match r {
            PingResult::Success(d) => success_latencies(log).push(d),
            _ => success_latencies(log),
        }),
        trailing_streak(log.push(r)) == (if r is Success {
            trailing_streak(log) + 1
        } else {
            0nat
        }),
        best_streak(log.push(r)) == (if r is Success {
            nat_larger(best_streak(log), trailing_streak(log) + 1)
        } else {
            best_streak(log)
        }),
        last_success_latency(log.push(r)) == outcome_latency(r),
        jitter_sum_of(log.push(r)) == jitter_sum_of(log) + (if log.len() > 0 {
            jitter_pair_sum(log.last(), r)
        } else {
            0nat
        }),
        jitter_count_of(log.push(r)) == jitter_count_of(log) + (if log.len() > 0 {
            jitter_pair_count(log.last(), r)
        } else {
            0nat
        }),
{
    assert(log.push(r).drop_last() =~= log);
    assert(log.push(r).last() == r);
    if log.len() > 0 {
        assert(log.push(r)[log.push(r).len() - 2] == log.last());
    }
}

/// Counter bounds that hold of every log.
pub proof fn lemma_log_bounds(log: Seq<PingResult>)
    ensures
        count_successes(log) <= log.len(),
        success_latencies(log).len() == count_successes(log),
        trailing_streak(log) <= log.len(),
        trailing_streak(log) <= best_streak(log),
        best_streak(log) <= log.len(),
        jitter_count_of(log) <= log.len(),
        log.len() > 0 && !(log.last() is Success) ==> trailing_streak(log) == 0,
    decreases log.len(),
{
    if log.len() > 0 {
        lemma_log_bounds(log.drop_last());
    }
}

/// The accumulated jitter sum is bounded by the pair count.
pub proof fn lemma_jitter_sum_bound(log: Seq<PingResult>)
    ensures
        jitter_sum_of(log) <= jitter_count_of(log) * u64::MAX,
    decreases log.len(),
{
    if log.len() >= 2 {
        lemma_jitter_sum_bound(log.drop_last());
        let s = jitter_count_of(log.drop_last());
        assert((s + jitter_pair_count(log[log.len() - 2], log.last())) * u64::MAX == s * u64::MAX
            + jitter_pair_count(log[log.len() - 2], log.last()) * u64::MAX) by (nonlinear_arith);
        assert(jitter_pair_sum(log[log.len() - 2], log.last()) <= jitter_pair_count(
            log[log.len() - 2],
            log.last(),
        ) * u64::MAX);
    }
}

/// Lifetime aggregate over all successful latencies: exact min/max/sum/count
/// beside a bounded-memory sketch for approximate quantiles.
pub struct AllTimeStats {
    pub min: Option<u64>,
    pub max: Option<u64>,
    pub sum: u128,
    pub count: u64,
    pub sketch: LatencySketch,
    pub buffer: Vec<u64>,
    pub samples: Ghost<Seq<u64>>,
}

impl AllTimeStats {
    pub open spec fn wf(self) -> bool {
        &&& self.count as nat == self.samples@.len()
        &&& self.sum as nat == sum_of(self.samples@)
        &&& self.min == min_of(self.samples@)
        &&& self.max == max_of(self.samples@)
        &&& self.sketch.wf()
        &&& self.sketch.values() + self.buffer@ == self.samples@
        &&& self.buffer@.len() < BUFFER_SIZE
    }

    pub fn new() -> (r: Self)
        ensures
            r.wf(),
            r.samples@ == Seq::<u64>::empty(),
            r.count == 0,
            r.sum == 0,
            r.min is None,
            r.max is None,
    {
        let r = AllTimeStats {
            min: None,
            max: None,
            sum: 0,
            count: 0,
            sketch: LatencySketch::new(),
            buffer: Vec::new(),
            samples: Ghost(Seq::empty()),
        };
        proof {
            assert(r.sketch.values() + r.buffer@ =~= r.samples@);
        }
        r
    }

    /// Folds one successful latency into the lifetime aggregate. The sample
    /// is buffered and the buffer merged into the sketch at `BUFFER_SIZE`.
    pub fn record(&mut self, d: u64)
        requires
            old(self).wf(),
            old(self).count < u64::MAX,
        ensures
            final(self).wf(),
            final(self).samples@ == old(self).samples@.push(d),
            final(self).count == old(self).count + 1,
    {
        let ghost samples0 = self.samples@;
        self.min = match self.min {
            None => Some(d),
            Some(m) => Some(if d < m {
                d
            } else {
                m
            }),
        };
        self.max = match self.max {
            None => Some(d),
            Some(m) => Some(if d > m {
                d
            } else {
                m
            }),
        };
        proof {
            lemma_sum_bound(samples0);
            assert(samples0.len() * u64::MAX + u64::MAX <= (u64::MAX as nat) * u64::MAX
                + u64::MAX) by (nonlinear_arith)
                requires
                    samples0.len() <= u64::MAX,
            ;
            assert((u64::MAX as nat) * u64::MAX + u64::MAX <= u128::MAX) by (nonlinear_arith);
        }
        self.sum = self.sum + (d as u128);
        self.count = self.count + 1;
        self.buffer.push(d);
        proof {
            self.samples@ = samples0.push(d);
            lemma_sum_push(samples0, d);
            lemma_min_max_push(samples0, d);
        }
        if self.buffer.len() >= BUFFER_SIZE {
            let ghost values0 = self.sketch.values();
            let ghost buffered = self.buffer@;
            proof {
                assert((values0 + buffered).len() == self.samples@.len());
            }
            self.sketch.merge(&self.buffer);
            self.buffer.clear();
            proof {
                assert(self.sketch.values() + self.buffer@ =~= self.samples@);
            }
        } else {
            proof {
                assert(self.sketch.values() + self.buffer@ =~= self.samples@);
            }
        }
    }

    /// Mean of all recorded latencies, or `None` before any success.
    pub fn average(&self) -> (r: Option<u64>)
        requires
            self.wf(),
        ensures
            r == (if self.samples@.len() == 0 {
                None::<u64>
            } else {
                Some((sum_of(self.samples@) / self.samples@.len()) as u64)
            }),
    {
        if self.count == 0 {
            None
        } else {
            proof {
                lemma_average_in_range(self.samples@);
            }
            Some((self.sum / (self.count as u128)) as u64)
        }
    }

    /// Approximate percentile over all recorded latencies: the pending
    /// buffer is first compacted into the sketch, then the sketch queried.
    /// The estimate always lies between the least and greatest sample.
    pub fn percentile(&mut self, pct: u64) -> (r: Option<u64>)
        requires
            old(self).wf(),
            pct <= 100,
        ensures
            final(self).wf(),
            final(self).samples@ == old(self).samples@,
            final(self).count == old(self).count,
            final(self).sum == old(self).sum,
            final(self).min == old(self).min,
            final(self).max == old(self).max,
            (r is None) == (old(self).samples@.len() == 0),
            old(self).samples@.len() > 0 ==> (r matches Some(q) && seq_min(old(self).samples@)
                <= q <= seq_max(old(self).samples@)),
    {
        if self.count == 0 {
            return None;
        }
        let ghost samples0 = self.samples@;
        if self.buffer.len() > 0 {
            let ghost values0 = self.sketch.values();
            proof {
                assert((values0 + self.buffer@).len() == self.samples@.len());
            }
            self.sketch.merge(&self.buffer);
            self.buffer.clear();
            proof {
                assert(self.sketch.values() + self.buffer@ =~= self.samples@);
                assert(self.sketch.values() =~= samples0);
            }
        } else {
            proof {
                assert(self.sketch.values() =~= samples0);
            }
        }
        Some(self.sketch.quantile(pct))
    }

    /// Approximate median.
    pub fn p50(&mut self) -> (r: Option<u64>)
        requires
            old(self).wf(),
        ensures
            final(self).wf(),
            final(self).samples@ == old(self).samples@,
            final(self).count == old(self).count,
            final(self).sum == old(self).sum,
            final(self).min == old(self).min,
            final(self).max == old(self).max,
            (r is None) == (old(self).samples@.len() == 0),
            old(self).samples@.len() > 0 ==> (r matches Some(q) && seq_min(old(self).samples@)
                <= q <= seq_max(old(self).samples@)),
    {
        self.percentile(50)
    }

    /// Approximate 95th percentile.
    pub fn p95(&mut self) -> (r: Option<u64>)
        requires
            old(self).wf(),
        ensures
            final(self).wf(),
            final(self).samples@ == old(self).samples@,
            final(self).count == old(self).count,
            final(self).sum == old(self).sum,
            final(self).min == old(self).min,
            final(self).max == old(self).max,
            (r is None) == (old(self).samples@.len() == 0),
            old(self).samples@.len() > 0 ==> (r matches Some(q) && seq_min(old(self).samples@)
                <= q <= seq_max(old(self).samples@)),
    {
        self.percentile(95)
    }
}

impl Default for AllTimeStats {
    fn default() -> (r: Self)
        ensures
            r.wf(),
            r.samples@ == Seq::<u64>::empty(),
            r.count == 0,
            r.sum == 0,
            r.min is None,
            r.max is None,
    {
        AllTimeStats::new()
    }
}


/// All statistics kept for one probed target. The ghost `log` holds every
/// outcome recorded since creation (or the last reset), and every counter
/// is a stated function of it.
pub struct TargetStats {
    /// Rolling window of the most recent outcomes, strict FIFO.
    pub history: VecDeque<PingResult>,
    /// Lifetime number of probes recorded.
    pub sent: u64,
    /// Lifetime number of successful probes.
    pub received: u64,
    /// Lifetime latency aggregate.
    pub all_time: AllTimeStats,
    /// Length of the current run of consecutive successes.
    pub current_streak: u64,
    /// Length of the longest run of consecutive successes so far.
    pub longest_streak: u64,
    /// Latency of the last outcome if it was a success: the jitter reference.
    pub prev_latency: Option<u64>,
    /// Sum of absolute differences between adjacent successful latencies.
    pub jitter_sum: u128,
    /// Number of adjacent success pairs counted into `jitter_sum`.
    pub jitter_count: u64,
    /// Every outcome recorded, in order.
    pub log: Ghost<Seq<PingResult>>,
    /// Index into `log` where the rolling window begins.
    pub wstart: Ghost<nat>,
}

impl TargetStats {
    pub open spec fn wf(self) -> bool {
        &&& self.sent as nat == self.log@.len()
        &&& self.received as nat == count_successes(self.log@)
        &&& self.current_streak as nat == trailing_streak(self.log@)
        &&& self.longest_streak as nat == best_streak(self.log@)
        &&& self.prev_latency == last_success_latency(self.log@)
        &&& self.jitter_sum as nat == jitter_sum_of(self.log@)
        &&& self.jitter_count as nat == jitter_count_of(self.log@)
        &&& self.all_time.wf()
        &&& self.all_time.samples@ == success_latencies(self.log@)
        &&& self.wstart@ <= self.log@.len()
        &&& self.log@.len() - self.wstart@ <= MAX_HISTORY
        &&& self.history@ == self.log@.subrange(self.wstart@ as int, self.log@.len() as int)
    }

    /// The outcomes inside the rolling window, oldest first.
    pub open spec fn window(self) -> Seq<PingResult> {
        self.history@
    }

    pub fn new() -> (r: Self)
        ensures
            r.wf(),
            r.log@ == Seq::<PingResult>::empty(),
            r.sent == 0,
            r.received == 0,
            r.current_streak == 0,
            r.longest_streak == 0,
            r.window() == Seq::<PingResult>::empty(),
            r.all_time.count == 0,
    {
        let r = TargetStats {
            history: VecDeque::new(),
            sent: 0,
            received: 0,
            all_time: AllTimeStats::new(),
            current_streak: 0,
            longest_streak: 0,
            prev_latency: None,
            jitter_sum: 0,
            jitter_count: 0,
            log: Ghost(Seq::empty()),
            wstart: Ghost(0nat),
        };
        proof {
            assert(r.history@ =~= r.log@.subrange(0, 0));
        }
        r
    }

    /// Discards the rolling window only; lifetime counters stay.
    pub fn reset_window(&mut self)
        requires
            old(self).wf(),
        ensures
            final(self).wf(),
            final(self).window() == Seq::<PingResult>::empty(),
            final(self).log@ == old(self).log@,
            final(self).sent == old(self).sent,
            final(self).received == old(self).received,
            final(self).all_time == old(self).all_time,
            final(self).current_streak == old(self).current_streak,
            final(self).longest_streak == old(self).longest_streak,
    {
        self.history.clear();
        proof {
            self.wstart@ = self.log@.len();
            assert(self.history@ =~= self.log@.subrange(
                self.log@.len() as int,
                self.log@.len() as int,
            ));
        }
    }

    /// Discards everything: the window, the counters, the streaks, the jitter
    /// accumulator and the lifetime aggregate with its sketch.
    pub fn reset(&mut self)
        ensures
            final(self).wf(),
            final(self).log@ == Seq::<PingResult>::empty(),
            final(self).sent == 0,
            final(self).received == 0,
            final(self).current_streak == 0,
            final(self).longest_streak == 0,
            final(self).window() == Seq::<PingResult>::empty(),
            final(self).all_time.count == 0,
    {
        self.history = VecDeque::new();
        self.sent = 0;
        self.received = 0;
        self.all_time = AllTimeStats::new();
        self.current_streak = 0;
        self.longest_streak = 0;
        self.prev_latency = None;
        self.jitter_sum = 0;
        self.jitter_count = 0;
        proof {
            self.log@ = Seq::empty();
            self.wstart@ = 0nat;
            assert(self.history@ =~= self.log@.subrange(0, 0));
        }
    }

    /// Folds one probe outcome into the statistics:
    /// a success extends the streak, the lifetime aggregate and the jitter
    /// pairing; a timeout or error breaks the streak and the jitter pairing;
    /// either way the outcome enters the window, evicting the oldest entry
    /// once the window is full.
    pub fn record(&mut self, result: PingResult)
        requires
            old(self).wf(),
            old(self).sent < u64::MAX,
        ensures
            final(self).wf(),
            final(self).log@ == old(self).log@.push(result),
            final(self).sent == old(self).sent + 1,
            final(self).received == old(self).received + (if result is Success {
                1u64
            } else {
                0u64
            }),
            result is Success ==> final(self).current_streak == old(self).current_streak + 1,
            !(result is Success) ==> final(self).current_streak == 0,
            final(self).longest_streak == (if final(self).current_streak
                > old(self).longest_streak {
                final(self).current_streak
            } else {
                old(self).longest_streak
            }),
            final(self).window() == (if old(self).window().len() < MAX_HISTORY {
                old(self).window().push(result)
            } else {
                old(self).window().drop_first().push(result)
            }),
    {
        let ghost log0 = self.log@;
        let ghost w0 = self.wstart@;
        proof {
            lemma_log_bounds(log0);
            lemma_log_push(log0, result);
        }
        self.sent = self.sent + 1;
        match &result {
            PingResult::Success(dref) => {
                let d = *dref;
                self.received = self.received + 1;
                self.all_time.record(d);
                self.current_streak = self.current_streak + 1;
                if self.current_streak > self.longest_streak {
                    self.longest_streak = self.current_streak;
                }
                if let Some(prev) = self.prev_latency {
                    let diff = if d >= prev {
                        d - prev
                    } else {
                        prev - d
                    };
                    proof {
                        lemma_jitter_sum_bound(log0);
                        assert(jitter_count_of(log0) * u64::MAX + u64::MAX <= (u64::MAX as nat)
                            * u64::MAX + u64::MAX) by (nonlinear_arith)
                            requires
                                jitter_count_of(log0) <= u64::MAX,
                        ;
                        assert((u64::MAX as nat) * u64::MAX + u64::MAX <= u128::MAX)
                            by (nonlinear_arith);
                    }
                    self.jitter_sum = self.jitter_sum + (diff as u128);
                    self.jitter_count = self.jitter_count + 1;
                }
                self.prev_latency = Some(d);
            }
            PingResult::Timeout | PingResult::Error(_) => {
                self.current_streak = 0;
                self.prev_latency = None;
            }
        }
        let ghost h0 = self.history@;
        let mut evicted = false;
        if self.history.len() >= MAX_HISTORY {
            let _ = self.history.pop_front();
            evicted = true;
            proof {
                self.wstart@ = w0 + 1;
            }
        }
        self.history.push_back(result);
        proof {
            self.log@ = log0.push(result);
            if evicted {
                assert(self.history@ =~= self.log@.subrange(
                    self.wstart@ as int,
                    self.log@.len() as int,
                ));
                assert(self.history@ =~= h0.drop_first().push(result));
            } else {
                assert(self.history@ =~= self.log@.subrange(
                    self.wstart@ as int,
                    self.log@.len() as int,
                ));
            }
        }
    }
}


/// Index of the `p`-th percentile in a sorted sequence of length `n`:
/// `p/100 * (n-1)`, rounded to the nearest rank.
pub open spec fn rank_index(p: int, n: int) -> int {
    (p * (n - 1) + 50) / 100
}

/// Exact percentile of a sequence of latencies: the entry of the ascending
/// ordering at the rounded rank.
pub open spec fn percentile_of(s: Seq<u64>, p: int) -> Option<u64> {
    if s.len() == 0 {
        None
    } else {
        Some(crate::sorting::sorted_of(s)[rank_index(p, s.len() as int)])
    }
}

/// Packet loss in hundredths of a percent.
pub open spec fn loss_hundredths(sent: int, received: int) -> int {
    if sent <= 0 {
        0
    } else {
        (sent - received) * 10000 / sent
    }
}

impl TargetStats {
    /// Latencies of the successful outcomes inside the window, oldest first.
    #[verifier::loop_isolation(false)]
    fn successful_latencies(&self) -> (v: Vec<u64>)
        requires
            self.wf(),
        ensures
            v@ == success_latencies(self.window()),
            v@.len() <= self.window().len(),
    {
        let ghost w = self.window();
        let mut v: Vec<u64> = Vec::new();
        let mut i: usize = 0;
        while i < self.history.len()
            invariant
                i <= w.len(),
                v@ == success_latencies(w.subrange(0, i as int)),
            decreases w.len() - i,
        {
            proof {
                assert(w.subrange(0, i + 1) =~= w.subrange(0, i as int).push(w[i as int]));
                lemma_log_push(w.subrange(0, i as int), w[i as int]);
            }
            match &self.history[i] {
                PingResult::Success(d) => {
                    v.push(*d);
                },
                _ => {},
            }
            i = i + 1;
        }
        proof {
            assert(w.subrange(0, w.len() as int) =~= w);
            lemma_log_bounds(w);
        }
        v
    }

    /// Mean absolute difference between adjacent successful latencies, or
    /// `None` before two adjacent successes were seen.
    pub fn jitter(&self) -> (r: Option<u64>)
        requires
            self.wf(),
        ensures
            r == jitter_of(self.log@),
    {
        if self.jitter_count == 0 {
            None
        } else {
            proof {
                lemma_jitter_sum_bound(self.log@);
                crate::samples::lemma_div_bound(
                    jitter_sum_of(self.log@),
                    jitter_count_of(self.log@),
                    u64::MAX as nat,
                );
            }
            Some((self.jitter_sum / (self.jitter_count as u128)) as u64)
        }
    }

    /// Lifetime packet loss, in hundredths of a percent.
    pub fn packet_loss(&self) -> (r: u64)
        requires
            self.wf(),
        ensures
            r as int == loss_hundredths(self.sent as int, self.received as int),
            r <= 10000,
    {
        proof {
            lemma_log_bounds(self.log@);
        }
        if self.sent == 0 {
            0
        } else {
            let lost = self.sent - self.received;
            let num = (lost as u128) * 10000;
            proof {
                assert((lost as int) * 10000 <= (self.sent as int) * 10000) by (nonlinear_arith)
                    requires
                        lost <= self.sent,
                ;
                lemma_div_is_ordered((lost as int) * 10000, (self.sent as int) * 10000, self.sent as int);
                lemma_div_by_multiple(10000, self.sent as int);
                assert((self.sent as int) * 10000 == 10000 * (self.sent as int)) by (nonlinear_arith);
            }
            (num / (self.sent as u128)) as u64
        }
    }

    /// Packet loss over the rolling window: lost count and loss in
    /// hundredths of a percent.
    #[verifier::loop_isolation(false)]
    pub fn window_packet_loss(&self) -> (r: (u64, u64))
        requires
            self.wf(),
        ensures
            r.0 as nat == self.window().len() - count_successes(self.window()),
            r.1 as int == loss_hundredths(
                self.window().len() as int,
                count_successes(self.window()) as int,
            ),
    {
        let ghost w = self.window();
        proof {
            lemma_log_bounds(w);
        }
        if self.history.len() == 0 {
            return (0, 0);
        }
        let total = self.history.len() as u64;
        let mut succ: u64 = 0;
        let mut i: usize = 0;
        while i < self.history.len()
            invariant
                i <= w.len(),
                succ as nat == count_successes(w.subrange(0, i as int)),
            decreases w.len() - i,
        {
            proof {
                assert(w.subrange(0, i + 1) =~= w.subrange(0, i as int).push(w[i as int]));
                lemma_log_push(w.subrange(0, i as int), w[i as int]);
                lemma_log_bounds(w.subrange(0, i as int));
            }
            match &self.history[i] {
                PingResult::Success(_) => {
                    succ = succ + 1;
                },
                _ => {},
            }
            i = i + 1;
        }
        proof {
            assert(w.subrange(0, w.len() as int) =~= w);
        }
        let lost = total - succ;
        let pct = lost * 10000 / total;
        proof {
            assert((lost as int) * 10000 == (w.len() - count_successes(w)) * 10000);
        }
        (lost, pct)
    }

    /// Lifetime packet loss: lost count and loss in hundredths of a percent.
    pub fn all_time_packet_loss(&self) -> (r: (u64, u64))
        requires
            self.wf(),
        ensures
            r.0 == self.sent - self.received,
            r.1 as int == loss_hundredths(self.sent as int, self.received as int),
    {
        proof {
            lemma_log_bounds(self.log@);
        }
        let lost = self.sent - self.received;
        (lost, self.packet_loss())
    }

    /// Latency of the newest window entry, if it was a success.
    pub fn current(&self) -> (r: Option<u64>)
        requires
            self.wf(),
        ensures
            r == last_success_latency(self.window()),
    {
        let n = self.history.len();
        if n == 0 {
            None
        } else {
            match &self.history[n - 1] {
                PingResult::Success(d) => Some(*d),
                _ => None,
            }
        }
    }

    /// Mean of the successful latencies inside the window.
    #[verifier::loop_isolation(false)]
    pub fn average(&self) -> (r: Option<u64>)
        requires
            self.wf(),
        ensures
            r == crate::samples::average_of(success_latencies(self.window())),
    {
        let lats = self.successful_latencies();
        if lats.len() == 0 {
            return None;
        }
        let mut acc: u128 = 0;
        let mut i: usize = 0;
        while i < lats.len()
            invariant
                i <= lats@.len(),
                acc == sum_of(lats@.subrange(0, i as int)),
            decreases lats@.len() - i,
        {
            proof {
                lemma_sum_bound(lats@.subrange(0, i as int));
                assert((i as nat) * u64::MAX + u64::MAX <= (u64::MAX as nat) * u64::MAX
                    + u64::MAX) by (nonlinear_arith)
                    requires
                        i <= u64::MAX,
                ;
                assert((u64::MAX as nat) * u64::MAX + u64::MAX <= u128::MAX) by (nonlinear_arith);
            }
            acc = acc + (lats[i] as u128);
            proof {
                assert(lats@.subrange(0, i + 1) =~= lats@.subrange(0, i as int).push(
                    lats@[i as int],
                ));
                lemma_sum_push(lats@.subrange(0, i as int), lats@[i as int]);
            }
            i = i + 1;
        }
        proof {
            assert(lats@.subrange(0, lats@.len() as int) =~= lats@);
            lemma_average_in_range(lats@);
        }
        Some((acc / (lats.len() as u128)) as u64)
    }

    /// Least successful latency inside the window.
    #[verifier::loop_isolation(false)]
    pub fn min(&self) -> (r: Option<u64>)
        requires
            self.wf(),
        ensures
            r == min_of(success_latencies(self.window())),
    {
        let lats = self.successful_latencies();
        let mut cur: Option<u64> = None;
        let mut i: usize = 0;
        while i < lats.len()
            invariant
                i <= lats@.len(),
                cur == min_of(lats@.subrange(0, i as int)),
            decreases lats@.len() - i,
        {
            let x = lats[i];
            cur = match cur {
                None => Some(x),
                Some(m) => Some(if x < m {
                    x
                } else {
                    m
                }),
            };
            proof {
                assert(lats@.subrange(0, i + 1) =~= lats@.subrange(0, i as int).push(
                    lats@[i as int],
                ));
                lemma_min_max_push(lats@.subrange(0, i as int), lats@[i as int]);
            }
            i = i + 1;
        }
        proof {
            assert(lats@.subrange(0, lats@.len() as int) =~= lats@);
        }
        cur
    }

    /// Greatest successful latency inside the window.
    #[verifier::loop_isolation(false)]
    pub fn max(&self) -> (r: Option<u64>)
        requires
            self.wf(),
        ensures
            r == max_of(success_latencies(self.window())),
    {
        let lats = self.successful_latencies();
        let mut cur: Option<u64> = None;
        let mut i: usize = 0;
        while i < lats.len()
            invariant
                i <= lats@.len(),
                cur == max_of(lats@.subrange(0, i as int)),
            decreases lats@.len() - i,
        {
            let x = lats[i];
            cur = match cur {
                None => Some(x),
                Some(m) => Some(if x > m {
                    x
                } else {
                    m
                }),
            };
            proof {
                assert(lats@.subrange(0, i + 1) =~= lats@.subrange(0, i as int).push(
                    lats@[i as int],
                ));
                lemma_min_max_push(lats@.subrange(0, i as int), lats@[i as int]);
            }
            i = i + 1;
        }
        proof {
            assert(lats@.subrange(0, lats@.len() as int) =~= lats@);
        }
        cur
    }

    /// Exact percentile of the successful latencies inside the window:
    /// the successes are sorted ascending and the entry at rank
    /// `round(p/100 * (count-1))` is returned.
    pub fn percentile(&self, p: u64) -> (r: Option<u64>)
        requires
            self.wf(),
            p <= 100,
        ensures
            r == percentile_of(success_latencies(self.window()), p as int),
    {
        let lats = self.successful_latencies();
        if lats.len() == 0 {
            return None;
        }
        let sorted = crate::sorting::sort_u64(&lats);
        let n = lats.len();
        proof {
            assert(self.window().len() <= MAX_HISTORY);
            assert(n <= MAX_HISTORY);
            assert((p as int) * ((n - 1) as int) <= 100 * 299) by (nonlinear_arith)
                requires
                    p <= 100,
                    1 <= n <= 300,
            ;
        }
        let idx = ((p as usize) * (n - 1) + 50) / 100;
        proof {
            assert((p as int) * ((n - 1) as int) + 50 <= 100 * ((n - 1) as int) + 50)
                by (nonlinear_arith)
                requires
                    p <= 100,
                    n >= 1,
            ;
            lemma_div_is_ordered(
                (p as int) * ((n - 1) as int) + 50,
                100 * ((n - 1) as int) + 50,
                100,
            );
            vstd::arithmetic::div_mod::lemma_div_multiples_vanish_fancy((n - 1) as int, 50, 100);
            assert(idx <= n - 1);
        }
        Some(sorted[idx])
    }

    /// Median of the window's successful latencies.
    pub fn p50(&self) -> (r: Option<u64>)
        requires
            self.wf(),
        ensures
            r == percentile_of(success_latencies(self.window()), 50),
    {
        self.percentile(50)
    }

    /// 95th percentile of the window's successful latencies.
    pub fn p95(&self) -> (r: Option<u64>)
        requires
            self.wf(),
        ensures
            r == percentile_of(success_latencies(self.window()), 95),
    {
        self.percentile(95)
    }

    /// 99th percentile of the window's successful latencies.
    pub fn p99(&self) -> (r: Option<u64>)
        requires
            self.wf(),
        ensures
            r == percentile_of(success_latencies(self.window()), 99),
    {
        self.percentile(99)
    }

    /// Number of outcomes inside the rolling window.
    pub fn window_count(&self) -> (n: usize)
        requires
            self.wf(),
        ensures
            n == self.window().len(),
    {
        self.history.len()
    }

    /// Window latencies for rendering: a success yields its latency in
    /// microseconds, a loss yields zero.
    #[verifier::loop_isolation(false)]
    pub fn sparkline_data(&self) -> (v: Vec<u64>)
        requires
            self.wf(),
        ensures
            v@.len() == self.window().len(),
            forall|i: int|
                0 <= i < v@.len() ==> v@[i] == (match self.window()[i] {
                    PingResult::Success(d) => d,
                    _ => 0u64,
                }),
    {
        let mut v: Vec<u64> = Vec::new();
        let mut i: usize = 0;
        while i < self.history.len()
            invariant
                i <= self.window().len(),
                v@.len() == i,
                forall|j: int|
                    0 <= j < i ==> v@[j] == (match self.window()[j] {
                        PingResult::Success(d) => d,
                        _ => 0u64,
                    }),
            decreases self.window().len() - i,
        {
            match &self.history[i] {
                PingResult::Success(d) => {
                    v.push(*d);
                },
                _ => {
                    v.push(0);
                },
            }
            i = i + 1;
        }
        v
    }

    /// The latencies of the last `n` window entries, newest first; a loss
    /// yields `None`.
    #[verifier::loop_isolation(false)]
    pub fn recent_latencies(&self, n: usize) -> (v: Vec<Option<u64>>)
        requires
            self.wf(),
        ensures
            v@.len() == (if n <= self.window().len() {
                n as int
            } else {
                self.window().len() as int
            }),
            forall|i: int|
                0 <= i < v@.len() ==> v@[i] == outcome_latency(
                    self.window()[self.window().len() - 1 - i],
                ),
    {
        let mut v: Vec<Option<u64>> = Vec::new();
        let len = self.history.len();
        let mut i: usize = 0;
        while i < n && i < len
            invariant
                i <= len,
                i <= n,
                v@.len() == i,
                forall|j: int|
                    0 <= j < i ==> v@[j] == outcome_latency(
                        self.window()[self.window().len() - 1 - j],
                    ),
            decreases len - i,
        {
            match &self.history[len - 1 - i] {
                PingResult::Success(d) => {
                    v.push(Some(*d));
                },
                _ => {
                    v.push(None);
                },
            }
            i = i + 1;
        }
        v
    }
}


/// Mean Opinion Score in thousandths (1000 = 1.0 to 5000 = 5.0), by a
/// simplified E-model: effective latency is the average plus twice the
/// jitter plus a 10ms codec allowance; its penalty is `eff/40` below 160ms
/// and `(eff-120ms)/10` above; each percent of loss costs 2.5 R-points;
/// the R-value `93.2 - penalties` (clamped to [0, 100]) maps to MOS by the
/// fixed cubic `1 + 0.035R + 7e-6 R(R-60)(100-R)`, clamped to [1.0, 5.0].
/// Latencies are in microseconds, loss in hundredths of a percent, and all
/// intermediate terms carry three decimal places as integers.
pub open spec fn mos_thousandths(avg_us: int, jitter_us: int, loss_h: int) -> int {
    let eff = avg_us + 2 * jitter_us + 10000;
    let lat_factor = if eff < 160000 {
        eff / 40
    } else {
        (eff - 120000) / 10
    };
    let penalty = lat_factor + 25 * loss_h;
    let r_value = if penalty >= 93200 {
        0
    } else {
        93200 - penalty
    };
    let base = 1000 + (35 * r_value) / 1000;
    let raw = if r_value >= 60000 {
        base + (7 * r_value * (r_value - 60000) * (100000 - r_value)) / 1000000000000
    } else {
        let dip = (7 * r_value * (60000 - r_value) * (100000 - r_value)) / 1000000000000;
        if base >= dip {
            base - dip
        } else {
            0
        }
    };
    if raw < 1000 {
        1000
    } else if raw > 5000 {
        5000
    } else {
        raw
    }
}

/// Jitter in microseconds, taken as zero before any pair of successes.
pub open spec fn jitter_or_zero(log: Seq<PingResult>) -> int {
    match jitter_of(log) {
        Some(j) => j as int,
        None => 0,
    }
}

/// Letter grade and description for a MOS value in thousandths.
pub open spec fn grade_of(mos: int) -> (&'static str, &'static str) {
    if mos >= 4300 {
        ("A", "Excellent")
    } else if mos >= 4000 {
        ("B", "Good")
    } else if mos >= 3600 {
        ("C", "Fair")
    } else if mos >= 3100 {
        ("D", "Poor")
    } else {
        ("F", "Bad")
    }
}

/// Equal-width bucket for a sample: `floor((v-lo) * k / (hi-lo))`, clamped
/// to the last bucket.
pub open spec fn bucket_index(v: u64, lo: u64, hi: u64, k: int) -> int
    recommends
        lo <= v,
        lo < hi,
        k >= 1,
{
    let raw = (v - lo) * k / (hi - lo);
    if raw >= k {
        k - 1
    } else {
        raw
    }
}

/// Number of samples of `s` that fall in bucket `b`.
pub open spec fn bucket_count(s: Seq<u64>, lo: u64, hi: u64, k: int, b: int) -> nat
    decreases s.len(),
{
    if s.len() == 0 {
        0
    } else {
        (bucket_count(s.drop_last(), lo, hi, k, b) + (if bucket_index(s.last(), lo, hi, k) == b {
            1nat
        } else {
            0nat
        })) as nat
    }
}

/// Lower edge of bucket `i`.
pub open spec fn bucket_boundary(lo: u64, hi: u64, k: int, i: int) -> int {
    lo + (hi - lo) * i / k
}

proof fn lemma_bucket_count_le(s: Seq<u64>, lo: u64, hi: u64, k: int, b: int)
    ensures
        bucket_count(s, lo, hi, k, b) <= s.len(),
    decreases s.len(),
{
    if s.len() > 0 {
        lemma_bucket_count_le(s.drop_last(), lo, hi, k, b);
    }
}

impl TargetStats {
    /// The MOS this target's lifetime statistics yield, or `None` before
    /// any success was recorded.
    pub open spec fn mos_of(self) -> Option<u64> {
        match crate::samples::average_of(self.all_time.samples@) {
            None => None,
            Some(avg) => Some(
                mos_thousandths(
                    avg as int,
                    jitter_or_zero(self.log@),
                    loss_hundredths(self.sent as int, self.received as int),
                ) as u64,
            ),
        }
    }

    /// Mean Opinion Score in thousandths, from the all-time average latency,
    /// the jitter, and the lifetime packet loss.
    pub fn mos_score(&self) -> (r: Option<u64>)
        requires
            self.wf(),
        ensures
            r == self.mos_of(),
    {
        let avg = match self.all_time.average() {
            None => {
                return None;
            },
            Some(a) => a,
        };
        let jit = match self.jitter() {
            None => 0u64,
            Some(j) => j,
        };
        let loss = self.packet_loss();
        let eff: u128 = avg as u128 + 2 * (jit as u128) + 10000;
        let lat_factor: u128 = if eff < 160000 {
            eff / 40
        } else {
            (eff - 120000) / 10
        };
        let penalty: u128 = lat_factor + 25 * (loss as u128);
        let r_value: u128 = if penalty >= 93200 {
            0
        } else {
            93200 - penalty
        };
        let base: u128 = 1000 + (35 * r_value) / 1000;
        proof {
            assert(r_value <= 93200);
        }
        let raw: u128 = if r_value >= 60000 {
            proof {
                assert((7 * r_value) as int * ((r_value - 60000) as int) <= 652400 * 33200)
                    by (nonlinear_arith)
                    requires
                        60000 <= r_value <= 93200,
                ;
                assert((7 * r_value * (r_value - 60000)) as int * ((100000 - r_value) as int)
                    <= 21659680000 * 40000) by (nonlinear_arith)
                    requires
                        60000 <= r_value <= 93200,
                        7 * r_value * (r_value - 60000) <= 21659680000,
                ;
            }
            base + (7 * r_value * (r_value - 60000) * (100000 - r_value)) / 1000000000000
        } else {
            proof {
                assert((7 * r_value) as int * ((60000 - r_value) as int) <= 420000 * 60000)
                    by (nonlinear_arith)
                    requires
                        r_value < 60000,
                ;
                assert((7 * r_value * (60000 - r_value)) as int * ((100000 - r_value) as int)
                    <= 25200000000 * 100000) by (nonlinear_arith)
                    requires
                        r_value < 60000,
                        7 * r_value * (60000 - r_value) <= 25200000000,
                ;
            }
            let dip = (7 * r_value * (60000 - r_value) * (100000 - r_value)) / 1000000000000;
            if base >= dip {
                base - dip
            } else {
                0
            }
        };
        let mos = if raw < 1000 {
            1000
        } else if raw > 5000 {
            5000
        } else {
            raw
        };
        Some(mos as u64)
    }

    /// Letter grade for the current MOS.
    pub fn quality_grade(&self) -> (r: Option<(&'static str, &'static str)>)
        requires
            self.wf(),
        ensures
            r == (match self.mos_of() {
                None => None::<(&'static str, &'static str)>,
                Some(m) => Some(grade_of(m as int)),
            }),
    {
        let mos = match self.mos_score() {
            None => {
                return None;
            },
            Some(m) => m,
        };
        Some(
            if mos >= 4300 {
                ("A", "Excellent")
            } else if mos >= 4000 {
                ("B", "Good")
            } else if mos >= 3600 {
                ("C", "Fair")
            } else if mos >= 3100 {
                ("D", "Poor")
            } else {
                ("F", "Bad")
            },
        )
    }

    /// Distribution of the window's successful latencies over `num_buckets`
    /// equal-width buckets spanning their range: returns the buckets' lower
    /// edges and their counts. If all samples are equal the histogram
    /// collapses to one bucket holding everything.
    #[verifier::loop_isolation(false)]
    pub fn histogram(&self, num_buckets: usize) -> (r: Option<(Vec<u64>, Vec<u64>)>)
        requires
            self.wf(),
            num_buckets >= 1,
        ensures
            (r is None) == (success_latencies(self.window()).len() == 0),
            r matches Some(bc) ==> ({
                let lats = success_latencies(self.window());
                let lo = seq_min(lats);
                let hi = seq_max(lats);
                &&& (lo == hi ==> bc.0@ == seq![lo] && bc.1@ == seq![lats.len() as u64])
                &&& (lo != hi ==> {
                    &&& bc.0@.len() == num_buckets
                    &&& bc.1@.len() == num_buckets
                    &&& (forall|i: int|
                        0 <= i < num_buckets ==> #[trigger] bc.0@[i] as int == bucket_boundary(
                            lo,
                            hi,
                            num_buckets as int,
                            i,
                        ))
                    &&& (forall|b: int|
                        0 <= b < num_buckets ==> #[trigger] bc.1@[b] as nat == bucket_count(
                            lats,
                            lo,
                            hi,
                            num_buckets as int,
                            b,
                        ))
                    &&& sum_of(bc.1@) == lats.len()
                })
            }),
    {
        let lats = self.successful_latencies();
        if lats.len() == 0 {
            return None;
        }
        let ghost lseq = lats@;
        // range of the window's successes
        let mut lo = lats[0];
        let mut hi = lats[0];
        let mut i: usize = 1;
        proof {
            assert(lseq.subrange(0, 1) =~= seq![lseq[0]]);
        }
        while i < lats.len()
            invariant
                1 <= i <= lseq.len(),
                Some(lo) == min_of(lseq.subrange(0, i as int)),
                Some(hi) == max_of(lseq.subrange(0, i as int)),
            decreases lseq.len() - i,
        {
            let x = lats[i];
            if x < lo {
                lo = x;
            }
            if x > hi {
                hi = x;
            }
            proof {
                assert(lseq.subrange(0, i + 1) =~= lseq.subrange(0, i as int).push(lseq[i as int]));
                lemma_min_max_push(lseq.subrange(0, i as int), lseq[i as int]);
            }
            i = i + 1;
        }
        proof {
            assert(lseq.subrange(0, lseq.len() as int) =~= lseq);
        }

        if lo == hi {
            let mut bounds: Vec<u64> = Vec::new();
            bounds.push(lo);
            let mut counts: Vec<u64> = Vec::new();
            counts.push(lats.len() as u64);
            proof {
                assert(bounds@ =~= seq![seq_min(lseq)]);
                assert(counts@ =~= seq![lseq.len() as u64]);
            }
            return Some((bounds, counts));
        }
        let k = num_buckets;
        let span = hi - lo;

        // bucket lower edges
        let mut bounds: Vec<u64> = Vec::new();
        let mut i: usize = 0;
        while i < k
            invariant
                i <= k,
                bounds@.len() == i,
                forall|j: int|
                    0 <= j < i ==> #[trigger] bounds@[j] as int == bucket_boundary(
                        lo,
                        hi,
                        k as int,
                        j,
                    ),
            decreases k - i,
        {
            proof {
                assert((span as int) * (i as int) <= (span as int) * (k as int))
                    by (nonlinear_arith)
                    requires
                        0 <= span,
                        0 <= i <= k,
                ;
                assert((span as int) * (k as int) <= (u64::MAX as int) * (u64::MAX as int))
                    by (nonlinear_arith)
                    requires
                        0 <= span <= u64::MAX,
                        0 <= k <= u64::MAX,
                ;
                lemma_div_is_ordered((span as int) * (i as int), (span as int) * (k as int), k as int);
                lemma_div_by_multiple(span as int, k as int);
            }
            let off = ((span as u128) * (i as u128) / (k as u128)) as u64;
            bounds.push(lo + off);
            i = i + 1;
        }

        // counts per bucket
        let mut counts: Vec<u64> = Vec::new();
        let mut i: usize = 0;
        while i < k
            invariant
                i <= k,
                counts@.len() == i,
                forall|b: int| 0 <= b < i ==> #[trigger] counts@[b] == 0u64,
                sum_of(counts@) == 0,
            decreases k - i,
        {
            let ghost c0 = counts@;
            counts.push(0);
            proof {
                lemma_sum_push(c0, 0);
            }
            i = i + 1;
        }
        proof {
            assert(lseq.subrange(0, 0) =~= Seq::<u64>::empty());
        }
        let mut t: usize = 0;
        while t < lats.len()
            invariant
                t <= lseq.len(),
                counts@.len() == k,
                forall|b: int|
                    0 <= b < k ==> #[trigger] counts@[b] as nat == bucket_count(
                        lseq.subrange(0, t as int),
                        lo,
                        hi,
                        k as int,
                        b,
                    ),
                sum_of(counts@) == t,
            decreases lseq.len() - t,
        {
            let v = lats[t];
            proof {
                lemma_min_max_bounds(lseq);
            }
            let diff = v - lo;
            proof {
                assert((diff as int) * (k as int) <= (span as int) * (k as int))
                    by (nonlinear_arith)
                    requires
                        0 <= diff <= span,
                        0 <= k,
                ;
                assert((span as int) * (k as int) <= (u64::MAX as int) * (u64::MAX as int))
                    by (nonlinear_arith)
                    requires
                        0 <= span <= u64::MAX,
                        0 <= k <= u64::MAX,
                ;
                assert((span as int) * (k as int) == (k as int) * (span as int))
                    by (nonlinear_arith);
                lemma_div_is_ordered((diff as int) * (k as int), (k as int) * (span as int), span as int);
                lemma_div_by_multiple(k as int, span as int);
            }
            let raw = ((diff as u128) * (k as u128) / (span as u128)) as usize;
            let bidx = if raw >= k {
                k - 1
            } else {
                raw
            };
            proof {
                assert(bidx as int == bucket_index(v, lo, hi, k as int));
                lemma_bucket_count_le(lseq.subrange(0, t as int), lo, hi, k as int, bidx as int);
            }
            let c = counts[bidx];
            let ghost cs0 = counts@;
            counts[bidx] = c + 1;
            proof {
                crate::samples::lemma_sum_update_inc(cs0, bidx as int);
                assert(lseq.subrange(0, t + 1) =~= lseq.subrange(0, t as int).push(lseq[t as int]));
                assert forall|b: int| 0 <= b < k implies #[trigger] counts@[b] as nat
                    == bucket_count(lseq.subrange(0, t + 1), lo, hi, k as int, b) by {
                    assert(lseq.subrange(0, t + 1).drop_last() =~= lseq.subrange(0, t as int));
                }
            }
            t = t + 1;
        }
        proof {
            assert(lseq.subrange(0, lseq.len() as int) =~= lseq);
        }
        Some((bounds, counts))
    }
}


/// Rendering of a latency in microseconds: below 1ms in whole microseconds,
/// below 100ms in milliseconds with one decimal (rounded to nearest, half
/// up, carrying into the whole part), else in whole milliseconds.
pub open spec fn duration_str(micros: nat) -> Seq<char> {
    if micros < 1000 {
        dec_str(micros) + "µs"@
    } else if micros < 100000 {
        let tenths = (micros + 50) / 100;
        dec_str(tenths / 10) + "."@ + dec_str(tenths % 10) + "ms"@
    } else {
        dec_str(micros / 1000) + "ms"@
    }
}

/// Formats a latency in microseconds as a human-readable string.
pub fn format_duration(micros: u64) -> (s: String)
    ensures
        s@ == duration_str(micros as nat),
{
    if micros < 1000 {
        let mut s = crate::text::u64_to_string(micros);
        s.append("µs");
        s
    } else if micros < 100000 {
        let tenths = (micros + 50) / 100;
        let mut s = crate::text::u64_to_string(tenths / 10);
        s.append(".");
        s.append(crate::text::u64_to_string(tenths % 10).as_str());
        s.append("ms");
        s
    } else {
        let mut s = crate::text::u64_to_string(micros / 1000);
        s.append("ms");
        s
    }
}

/// Formats an optional latency, rendering `None` as a dash.
pub fn format_duration_opt(d: Option<u64>) -> (s: String)
    ensures
        s@ == (match d {
            None => "-"@,
            Some(m) => duration_str(m as nat),
        }),
{
    match d {
        None => "-".to_owned(),
        Some(m) => format_duration(m),
    }
}

/// Rendering of an elapsed time in seconds: seconds below a minute,
/// minutes and seconds below an hour, else hours and minutes.
pub open spec fn elapsed_str(secs: nat) -> Seq<char> {
    if secs < 60 {
        dec_str(secs) + "s"@
    } else if secs < 3600 {
        dec_str(secs / 60) + "m "@ + dec_str(secs % 60) + "s"@
    } else {
        dec_str(secs / 3600) + "h "@ + dec_str((secs % 3600) / 60) + "m"@
    }
}

/// Formats an elapsed time in seconds as a human-readable string.
pub fn format_elapsed(secs: u64) -> (s: String)
    ensures
        s@ == elapsed_str(secs as nat),
{
    if secs < 60 {
        let mut s = crate::text::u64_to_string(secs);
        s.append("s");
        s
    } else if secs < 3600 {
        let mut s = crate::text::u64_to_string(secs / 60);
        s.append("m ");
        s.append(crate::text::u64_to_string(secs % 60).as_str());
        s.append("s");
        s
    } else {
        let mut s = crate::text::u64_to_string(secs / 3600);
        s.append("h ");
        s.append(crate::text::u64_to_string((secs % 3600) / 60).as_str());
        s.append("m");
        s
    }
}


/// Counter laws, holding in every reachable state: the sent counter is the
/// full recorded count and never falls below the received counter; the
/// current streak never exceeds the longest; immediately after any
/// non-success the current streak is zero.
pub proof fn lemma_counter_invariants(s: TargetStats)
    requires
        s.wf(),
    ensures
        s.sent as nat == s.log@.len(),
        s.received as nat == count_successes(s.log@),
        s.sent >= s.received,
        s.current_streak <= s.longest_streak,
        s.log@.len() > 0 && !(s.log@.last() is Success) ==> s.current_streak == 0,
{
    lemma_log_bounds(s.log@);
}

/// A loss between two successes resets the jitter pairing: recording a
/// loss and then a success adds nothing to the jitter accumulator, so no
/// difference is ever taken across a loss.
pub proof fn lemma_jitter_resets_on_loss(log: Seq<PingResult>, loss: PingResult, d: u64)
    requires
        !(loss is Success),
    ensures
        jitter_sum_of(log.push(loss)) == jitter_sum_of(log),
        jitter_sum_of(log.push(loss).push(PingResult::Success(d))) == jitter_sum_of(log),
        jitter_count_of(log.push(loss).push(PingResult::Success(d))) == jitter_count_of(log),
{
    lemma_log_push(log, loss);
    lemma_log_push(log.push(loss), PingResult::Success(d));
}



impl Default for TargetStats {
    fn default() -> (r: Self)
        ensures
            r.wf(),
            r.log@ == Seq::<PingResult>::empty(),
            r.sent == 0,
            r.received == 0,
            r.current_streak == 0,
            r.longest_streak == 0,
            r.window() == Seq::<PingResult>::empty(),
            r.all_time.count == 0,
    {
        TargetStats::new()
    }
}

} // verus!
