use vstd::prelude::*;

verus! {

use vstd::arithmetic::div_mod::{lemma_div_by_multiple, lemma_div_is_ordered};
use crate::samples::{seq_min, seq_max, lemma_min_max_bounds, lemma_min_max_are_samples};
use crate::sorting::sort_u64;

/// Greatest number of centroids the sketch keeps between merges.
pub const MAX_CENTROIDS: usize = 100;

/// A group of nearby samples, summarised by their rounded mean and their count.
#[derive(Clone, Copy, PartialEq, Eq, Structural, Debug)]
pub struct Centroid {
    pub mean: u64,
    pub weight: u64,
}

/// Total weight held by a sequence of centroids.
pub open spec fn weight_sum(cs: Seq<Centroid>) -> nat
    decreases cs.len(),
{
    if cs.len() == 0 {
        0
    } else {
        (weight_sum(cs.drop_last()) + cs.last().weight) as nat
    }
}

/// Centroid means in ascending order.
pub open spec fn means_ascending(cs: Seq<Centroid>) -> bool {
    forall|i: int, j: int| 0 <= i < j < cs.len() ==> cs[i].mean <= cs[j].mean
}

/// Every centroid stands for at least one sample.
pub open spec fn weights_positive(cs: Seq<Centroid>) -> bool {
    forall|i: int| 0 <= i < cs.len() ==> #[trigger] cs[i].weight >= 1
}

/// Every centroid mean lies between `lo` and `hi`.
pub open spec fn means_within(cs: Seq<Centroid>, lo: u64, hi: u64) -> bool {
    forall|i: int| 0 <= i < cs.len() ==> lo <= #[trigger] cs[i].mean <= hi
}

proof fn lemma_ws_push(cs: Seq<Centroid>, c: Centroid)
    ensures
        weight_sum(cs.push(c)) == weight_sum(cs) + c.weight,
{
    assert(cs.push(c).drop_last() =~= cs);
    assert(cs.push(c).last() == c);
}

proof fn lemma_ws_prefix_step(cs: Seq<Centroid>, i: int)
    requires
        0 <= i < cs.len(),
    ensures
        weight_sum(cs.subrange(0, i + 1)) == weight_sum(cs.subrange(0, i)) + cs[i].weight,
{
    assert(cs.subrange(0, i + 1).drop_last() =~= cs.subrange(0, i));
    assert(cs.subrange(0, i + 1).last() == cs[i]);
}

proof fn lemma_ws_full(cs: Seq<Centroid>)
    ensures
        weight_sum(cs.subrange(0, cs.len() as int)) == weight_sum(cs),
{
    assert(cs.subrange(0, cs.len() as int) =~= cs);
}

/// A single weight never exceeds the total.
proof fn lemma_ws_elem(cs: Seq<Centroid>, i: int)
    requires
        0 <= i < cs.len(),
    ensures
        cs[i].weight <= weight_sum(cs),
    decreases cs.len(),
{
    if i == cs.len() - 1 {
        assert(cs.last() == cs[i]);
    } else {
        lemma_ws_elem(cs.drop_last(), i);
        assert(cs.drop_last()[i] == cs[i]);
    }
}

/// Two adjacent weights never exceed the total.
proof fn lemma_ws_pair(cs: Seq<Centroid>, i: int)
    requires
        0 <= i,
        i + 1 < cs.len(),
    ensures
        cs[i].weight + cs[i + 1].weight <= weight_sum(cs),
    decreases cs.len(),
{
    if i + 1 == cs.len() - 1 {
        lemma_ws_elem(cs.drop_last(), i);
        assert(cs.drop_last()[i] == cs[i]);
        assert(cs.last() == cs[i + 1]);
    } else {
        lemma_ws_pair(cs.drop_last(), i);
        assert(cs.drop_last()[i] == cs[i]);
        assert(cs.drop_last()[i + 1] == cs[i + 1]);
    }
}

/// Bounded-memory streaming quantile sketch over latency samples, in the
/// style of a centroid digest: samples arrive in batches, nearby samples
/// collapse into weighted centroids, and quantile queries walk the
/// cumulative weights.
pub struct LatencySketch {
    centroids: Vec<Centroid>,
    total: u64,
    samples: Ghost<Seq<u64>>,
}

impl LatencySketch {
    /// All samples ever merged, in arrival order.
    pub closed spec fn values(self) -> Seq<u64> {
        self.samples@
    }

    pub closed spec fn wf(self) -> bool {
        &&& self.total as nat == self.samples@.len()
        &&& weight_sum(self.centroids@) == self.samples@.len()
        &&& self.centroids@.len() <= MAX_CENTROIDS
        &&& means_ascending(self.centroids@)
        &&& weights_positive(self.centroids@)
        &&& (self.centroids@.len() == 0 <==> self.samples@.len() == 0)
        &&& (self.samples@.len() > 0 ==> means_within(
            self.centroids@,
            seq_min(self.samples@),
            seq_max(self.samples@),
        ))
    }

    pub fn new() -> (s: Self)
        ensures
            s.wf(),
            s.values() == Seq::<u64>::empty(),
    {
        LatencySketch { centroids: Vec::new(), total: 0, samples: Ghost(Seq::empty()) }
    }

    /// Number of samples merged so far.
    pub fn len(&self) -> (n: u64)
        requires
            self.wf(),
        ensures
            n as nat == self.values().len(),
    {
        self.total
    }

    /// Merges a batch of samples into the sketch.
    #[verifier::loop_isolation(false)]
    pub fn merge(&mut self, batch: &Vec<u64>)
        requires
            old(self).wf(),
            old(self).values().len() + batch@.len() <= u64::MAX,
        ensures
            final(self).wf(),
            final(self).values() == old(self).values() + batch@,
    {
        if batch.len() == 0 {
            proof {
                assert(self.samples@ + batch@ =~= self.samples@);
            }
            return ;
        }
        let sb = sort_u64(batch);
        let ghost samples0 = self.samples@;
        let ghost combined = samples0 + batch@;
        let ghost lo = seq_min(combined);
        let ghost hi = seq_max(combined);
        proof {
            lemma_min_max_bounds(combined);
            // batch samples sit inside the combined range
            assert forall|j: int| 0 <= j < batch@.len() implies lo <= #[trigger] batch@[j] <= hi by {
                assert(combined[samples0.len() + j] == batch@[j]);
            }
            batch@.lemma_sort_by_ensures(crate::sorting::u64_leq());
            assert forall|j: int| 0 <= j < sb@.len() implies lo <= #[trigger] sb@[j] <= hi by {
                assert(sb@.contains(sb@[j]));
                assert(batch@.contains(sb@[j]));
                let k = choose|k: int| 0 <= k < batch@.len() && batch@[k] == sb@[j];
                assert(lo <= batch@[k] <= hi);
            }
            // old centroid means sit inside the combined range too
            if samples0.len() > 0 {
                lemma_min_max_are_samples(samples0);
                let i0 = choose|i: int| 0 <= i < samples0.len() && samples0[i] == seq_min(samples0);
                assert(combined[i0] == seq_min(samples0));
                let i1 = choose|i: int| 0 <= i < samples0.len() && samples0[i] == seq_max(samples0);
                assert(combined[i1] == seq_max(samples0));
            }
            assert(means_within(self.centroids@, lo, hi));
        }

        // interleave the existing centroids with the new unit centroids,
        // keeping means ascending
        let mut merged: Vec<Centroid> = Vec::new();
        let mut a: usize = 0;
        let mut b: usize = 0;
        while a < self.centroids.len() || b < sb.len()
            invariant
                a <= self.centroids@.len(),
                b <= sb@.len(),
                weight_sum(merged@) == weight_sum(self.centroids@.subrange(0, a as int)) + b,
                means_ascending(merged@),
                weights_positive(merged@),
                means_within(merged@, lo, hi),
                merged@.len() > 0 && a < self.centroids@.len() ==> merged@.last().mean
                    <= self.centroids@[a as int].mean,
                merged@.len() > 0 && b < sb@.len() ==> merged@.last().mean <= sb@[b as int],
            decreases self.centroids@.len() - a + sb@.len() - b,
        {
            let ghost m0 = merged@;
            if a < self.centroids.len() && (b >= sb.len() || self.centroids[a].mean <= sb[b]) {
                let c = self.centroids[a];
                merged.push(c);
                a = a + 1;
                proof {
                    lemma_ws_push(m0, c);
                    lemma_ws_prefix_step(self.centroids@, a - 1);
                    assert(means_ascending(merged@));
                    assert(means_within(merged@, lo, hi));
                }
            } else {
                let c = Centroid { mean: sb[b], weight: 1 };
                merged.push(c);
                b = b + 1;
                proof {
                    lemma_ws_push(m0, c);
                    assert(means_ascending(merged@));
                    assert(means_within(merged@, lo, hi));
                }
            }
        }
        proof {
            lemma_ws_full(self.centroids@);
            assert(weight_sum(merged@) == combined.len());
        }

        // collapse adjacent pairs until the sketch is small enough again
        while merged.len() > MAX_CENTROIDS
            invariant
                weight_sum(merged@) == combined.len(),
                means_ascending(merged@),
                weights_positive(merged@),
                means_within(merged@, lo, hi),
            decreases merged@.len(),
        {
            let ghost before = merged@;
            let mut compact: Vec<Centroid> = Vec::new();
            let mut i: usize = 0;
            while i + 1 < merged.len()
                invariant
                    i <= merged@.len(),
                    i % 2 == 0,
                    compact@.len() * 2 == i,
                    weight_sum(compact@) == weight_sum(merged@.subrange(0, i as int)),
                    means_ascending(compact@),
                    weights_positive(compact@),
                    means_within(compact@, lo, hi),
                    compact@.len() > 0 && i < merged@.len() ==> compact@.last().mean
                        <= merged@[i as int].mean,
                decreases merged@.len() - i,
            {
                let c1 = merged[i];
                let c2 = merged[i + 1];
                proof {
                    lemma_ws_pair(merged@, i as int);
                }
                let w = c1.weight + c2.weight;
                proof {
                    assert((c1.mean as int) * (c1.weight as int) + (c2.mean as int) * (c2.weight
                        as int) <= (c2.mean as int) * (w as int)) by (nonlinear_arith)
                        requires
                            c1.mean <= c2.mean,
                            c1.weight >= 0,
                            c2.weight >= 0,
                            w == c1.weight + c2.weight,
                    ;
                    assert((c1.mean as int) * (w as int) <= (c1.mean as int) * (c1.weight as int)
                        + (c2.mean as int) * (c2.weight as int)) by (nonlinear_arith)
                        requires
                            c1.mean <= c2.mean,
                            c1.weight >= 0,
                            c2.weight >= 0,
                            w == c1.weight + c2.weight,
                    ;
                    assert((c2.mean as int) * (w as int) <= (u64::MAX as int) * (u64::MAX as int))
                        by (nonlinear_arith)
                        requires
                            0 <= c2.mean <= u64::MAX,
                            0 <= w <= u64::MAX,
                    ;
                }
                let num = (c1.mean as u128) * (c1.weight as u128) + (c2.mean as u128) * (c2.weight
                    as u128);
                let nm128 = num / (w as u128);
                proof {
                    lemma_div_is_ordered((c1.mean as int) * (w as int), num as int, w as int);
                    lemma_div_is_ordered(num as int, (c2.mean as int) * (w as int), w as int);
                    lemma_div_by_multiple(c1.mean as int, w as int);
                    lemma_div_by_multiple(c2.mean as int, w as int);
                    assert(c1.mean as int <= nm128 as int <= c2.mean as int);
                }
                let nm = nm128 as u64;
                let ghost compact0 = compact@;
                compact.push(Centroid { mean: nm, weight: w });
                i = i + 2;
                proof {
                    lemma_ws_push(compact0, Centroid { mean: nm, weight: w });
                    lemma_ws_prefix_step(merged@, i - 2);
                    lemma_ws_prefix_step(merged@, i - 1);
                    assert(means_ascending(compact@));
                    assert(means_within(compact@, lo, hi));
                }
            }
            if i < merged.len() {
                let c = merged[i];
                let ghost compact0 = compact@;
                compact.push(c);
                proof {
                    lemma_ws_push(compact0, c);
                    lemma_ws_prefix_step(merged@, i as int);
                    assert(i + 1 == merged@.len());
                    assert(merged@.subrange(0, i + 1) =~= merged@);
                    assert(means_ascending(compact@));
                    assert(means_within(compact@, lo, hi));
                }
            } else {
                proof {
                    assert(i == merged@.len());
                    lemma_ws_full(merged@);
                }
            }
            proof {
                assert(weight_sum(compact@) == combined.len());
                assert(compact@.len() < before.len());
            }
            merged = compact;
        }

        self.centroids = merged;
        self.total = self.total + batch.len() as u64;
        proof {
            self.samples@ = combined;
        }
        proof {
            if self.centroids@.len() == 0 {
                assert(weight_sum(self.centroids@) == 0);
            }
            if self.samples@.len() == 0 {
                assert(combined.len() == 0);
            } else {
                assert(self.centroids@.len() > 0) by {
                    if self.centroids@.len() == 0 {
                        assert(weight_sum(self.centroids@) == 0);
                    }
                }
            }
        }
    }

    /// Estimated value at the given percentile: the mean of the centroid
    /// that covers the rank `pct * (n - 1) / 100` in cumulative weight.
    #[verifier::loop_isolation(false)]
    pub fn quantile(&self, pct: u64) -> (r: u64)
        requires
            self.wf(),
            pct <= 100,
        ensures
            self.values().len() == 0 ==> r == 0,
            self.values().len() > 0 ==> seq_min(self.values()) <= r <= seq_max(self.values()),
    {
        if self.total == 0 {
            return 0;
        }
        let below: u128 = (self.total - 1) as u128;
        proof {
            assert((pct as int) * (below as int) <= 100 * (below as int)) by (nonlinear_arith)
                requires
                    pct <= 100,
                    below >= 0,
            ;
        }
        let rank: u128 = (pct as u128) * below / 100;
        proof {
            assert((pct as int) * ((self.total - 1) as int) <= 100 * ((self.total - 1) as int))
                by (nonlinear_arith)
                requires
                    pct <= 100,
                    self.total >= 1,
            ;
            lemma_div_is_ordered(
                (pct as int) * ((self.total - 1) as int),
                100 * ((self.total - 1) as int),
                100,
            );
            lemma_div_by_multiple((self.total - 1) as int, 100);
            assert(100 * ((self.total - 1) as int) == ((self.total - 1) as int) * 100)
                by (nonlinear_arith);
            assert(rank < self.total);
        }
        let mut cum: u128 = 0;
        let mut i: usize = 0;
        while i < self.centroids.len()
            invariant
                i <= self.centroids@.len(),
                cum == weight_sum(self.centroids@.subrange(0, i as int)),
                cum <= rank,
            decreases self.centroids@.len() - i,
        {
            let c = self.centroids[i];
            if rank < cum + c.weight as u128 {
                proof {
                    lemma_min_max_bounds(self.samples@);
                }
                return c.mean;
            }
            cum = cum + c.weight as u128;
            i = i + 1;
            proof {
                lemma_ws_prefix_step(self.centroids@, i - 1);
            }
        }
        proof {
            lemma_ws_full(self.centroids@);
            assert(cum == self.samples@.len());
            assert(false);
        }
        0
    }
}

} // verus!
