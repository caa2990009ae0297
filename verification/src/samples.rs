use vstd::prelude::*;

verus! {

/// Sum of a sequence of latency samples.
pub open spec fn sum_of(s: Seq<u64>) -> nat
    decreases s.len(),
{
    if s.len() == 0 {
        0
    } else {
        (sum_of(s.drop_last()) + s.last()) as nat
    }
}

/// Least sample of a non-empty sequence.
pub open spec fn seq_min(s: Seq<u64>) -> u64
    recommends
        s.len() > 0,
    decreases s.len(),
{
    if s.len() <= 1 {
        s[0]
    } else {
        let m = seq_min(s.drop_last());
        if s.last() < m {
            s.last()
        } else {
            m
        }
    }
}

/// Greatest sample of a non-empty sequence.
pub open spec fn seq_max(s: Seq<u64>) -> u64
    recommends
        s.len() > 0,
    decreases s.len(),
{
    if s.len() <= 1 {
        s[0]
    } else {
        let m = seq_max(s.drop_last());
        if s.last() > m {
            s.last()
        } else {
            m
        }
    }
}

/// Least sample, or `None` of an empty sequence.
pub open spec fn min_of(s: Seq<u64>) -> Option<u64> {
    if s.len() == 0 {
        None
    } else {
        Some(seq_min(s))
    }
}

/// Greatest sample, or `None` of an empty sequence.
pub open spec fn max_of(s: Seq<u64>) -> Option<u64> {
    if s.len() == 0 {
        None
    } else {
        Some(seq_max(s))
    }
}

/// Mean of a sequence of samples, or `None` of an empty one.
pub open spec fn average_of(s: Seq<u64>) -> Option<u64> {
    if s.len() == 0 {
        None
    } else {
        Some((sum_of(s) / s.len()) as u64)
    }
}

/// A sum bounded by `b * c` divided by `b` is bounded by `c`.
pub proof fn lemma_div_bound(a: nat, b: nat, c: nat)
    requires
        a <= b * c,
        b > 0,
    ensures
        a / b <= c,
{
    assert(a / b <= c) by (nonlinear_arith)
        requires
            a <= b * c,
            b > 0,
    ;
}

pub proof fn lemma_sum_push(s: Seq<u64>, x: u64)
    ensures
        sum_of(s.push(x)) == sum_of(s) + x,
{
    assert(s.push(x).drop_last() =~= s);
    assert(s.push(x).last() == x);
}

pub proof fn lemma_min_max_push(s: Seq<u64>, x: u64)
    ensures
        s.len() == 0 ==> seq_min(s.push(x)) == x && seq_max(s.push(x)) == x,
        s.len() > 0 ==> seq_min(s.push(x)) == (if x < seq_min(s) {
            x
        } else {
            seq_min(s)
        }),
        s.len() > 0 ==> seq_max(s.push(x)) == (if x > seq_max(s) {
            x
        } else {
            seq_max(s)
        }),
{
    assert(s.push(x).drop_last() =~= s);
    assert(s.push(x).last() == x);
}

/// Every sample of a non-empty sequence lies between its least and greatest.
pub proof fn lemma_min_max_bounds(s: Seq<u64>)
    requires
        s.len() > 0,
    ensures
        forall|i: int| 0 <= i < s.len() ==> seq_min(s) <= #[trigger] s[i] <= seq_max(s),
    decreases s.len(),
{
    if s.len() > 1 {
        lemma_min_max_bounds(s.drop_last());
        assert forall|i: int| 0 <= i < s.len() implies seq_min(s) <= #[trigger] s[i] <= seq_max(s) by {
            if i < s.len() - 1 {
                assert(s.drop_last()[i] == s[i]);
            }
        }
    }
}

/// The least and greatest samples are themselves samples.
pub proof fn lemma_min_max_are_samples(s: Seq<u64>)
    requires
        s.len() > 0,
    ensures
        s.contains(seq_min(s)),
        s.contains(seq_max(s)),
    decreases s.len(),
{
    if s.len() == 1 {
        assert(s[0] == seq_min(s));
        assert(s[0] == seq_max(s));
    } else {
        lemma_min_max_are_samples(s.drop_last());
        assert forall|x: u64| s.drop_last().contains(x) implies s.contains(x) by {
            let i = choose|i: int| 0 <= i < s.drop_last().len() && s.drop_last()[i] == x;
            assert(s[i] == x);
        }
        assert(s[s.len() - 1] == s.last());
    }
}

/// Raising one entry by one raises the sum by one.
pub proof fn lemma_sum_update_inc(s: Seq<u64>, j: int)
    requires
        0 <= j < s.len(),
        s[j] < u64::MAX,
    ensures
        sum_of(s.update(j, (s[j] + 1) as u64)) == sum_of(s) + 1,
    decreases s.len(),
{
    let t = s.update(j, (s[j] + 1) as u64);
    if j == s.len() - 1 {
        assert(t.drop_last() =~= s.drop_last());
        assert(t.last() == s[j] + 1);
    } else {
        lemma_sum_update_inc(s.drop_last(), j);
        assert(t.drop_last() =~= s.drop_last().update(j, (s[j] + 1) as u64));
        assert(t.last() == s.last());
    }
}

/// The sum of a sequence is bounded by its length times the largest `u64`.
pub proof fn lemma_sum_bound(s: Seq<u64>)
    ensures
        sum_of(s) <= s.len() * u64::MAX,
    decreases s.len(),
{
    if s.len() > 0 {
        lemma_sum_bound(s.drop_last());
        assert(s.len() * u64::MAX == (s.len() - 1) * u64::MAX + u64::MAX) by (nonlinear_arith);
    }
}

/// Dividing the sum of a non-empty sequence by its length stays within `u64`.
pub proof fn lemma_average_in_range(s: Seq<u64>)
    requires
        s.len() > 0,
    ensures
        sum_of(s) / s.len() <= u64::MAX,
{
    lemma_sum_bound(s);
    assert(sum_of(s) / s.len() <= u64::MAX) by (nonlinear_arith)
        requires
            sum_of(s) <= s.len() * u64::MAX,
            s.len() > 0,
    ;
}

} // verus!
