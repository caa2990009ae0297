use vstd::prelude::*;

verus! {

use vstd::relations::{sorted_by, total_ordering};
use vstd::seq_lib::lemma_sorted_unique;

/// The ordering used for latency values throughout the crate.
pub open spec fn u64_leq() -> spec_fn(u64, u64) -> bool {
    |x: u64, y: u64| x <= y
}

/// The canonical ascending ordering of a sequence of latency values.
pub open spec fn sorted_of(s: Seq<u64>) -> Seq<u64> {
    s.sort_by(u64_leq())
}

/// Ascending order, written out over indexes.
pub open spec fn is_ascending(s: Seq<u64>) -> bool {
    forall|i: int, j: int| 0 <= i < j < s.len() ==> s[i] <= s[j]
}

proof fn lemma_ascending_is_sorted_by(s: Seq<u64>)
    ensures
        is_ascending(s) == sorted_by(s, u64_leq()),
{
    if is_ascending(s) {
        assert forall|i: int, j: int| 0 <= i < j < s.len() implies #[trigger] (u64_leq()(
            s[i],
            s[j],
        )) by {
            assert(s[i] <= s[j]);
        }
        assert(sorted_by(s, u64_leq()));
    }
    if sorted_by(s, u64_leq()) {
        assert forall|i: int, j: int| 0 <= i < j < s.len() implies #[trigger] s[i] <= #[trigger] s[j] by {
            assert(u64_leq()(s[i], s[j]));
        }
        assert(is_ascending(s));
    }
}

/// Sorts latency values ascending by selection: repeatedly move the least
/// remaining value to the output.
pub fn sort_u64(v: &Vec<u64>) -> (r: Vec<u64>)
    ensures
        r@ == sorted_of(v@),
        r@.len() == v@.len(),
        is_ascending(r@),
{
    broadcast use vstd::seq_lib::group_to_multiset_ensures;
    broadcast use vstd::multiset::group_multiset_axioms;

    let mut rest: Vec<u64> = Vec::new();
    let mut i: usize = 0;
    while i < v.len()
        invariant
            i <= v@.len(),
            rest@ == v@.subrange(0, i as int),
        decreases v@.len() - i,
    {
        rest.push(v[i]);
        i = i + 1;
        assert(rest@ =~= v@.subrange(0, i as int));
    }
    assert(rest@ =~= v@);

    let mut out: Vec<u64> = Vec::new();
    while rest.len() > 0
        invariant
            out@.to_multiset().add(rest@.to_multiset()) =~= v@.to_multiset(),
            out@.len() + rest@.len() == v@.len(),
            is_ascending(out@),
            forall|j: int|
                0 <= j < rest@.len() && out@.len() > 0 ==> out@.last() <= #[trigger] rest@[j],
        decreases rest@.len(),
    {
        let mut m: usize = 0;
        let mut k: usize = 1;
        while k < rest.len()
            invariant
                m < k <= rest@.len(),
                rest@.len() > 0,
                forall|j: int| 0 <= j < k ==> rest@[m as int] <= #[trigger] rest@[j],
            decreases rest@.len() - k,
        {
            if rest[k] < rest[m] {
                m = k;
            }
            k = k + 1;
        }
        let ghost rest0 = rest@;
        let ghost out0 = out@;
        let x = rest.remove(m);
        out.push(x);
        proof {
            assert(rest0.contains(x)) by {
                assert(rest0[m as int] == x);
            }
            out0.to_multiset_ensures();
            rest0.to_multiset_ensures();
            assert(out@ == out0.push(x));
            assert(rest@ == rest0.remove(m as int));
            assert(out@.to_multiset() =~= out0.to_multiset().insert(x));
            assert(rest@.to_multiset() =~= rest0.to_multiset().remove(x));
            assert(out@.to_multiset().add(rest@.to_multiset()) =~= v@.to_multiset());
            assert forall|p: int, q: int| 0 <= p < q < out@.len() implies out@[p] <= out@[q] by {
                if q == out@.len() - 1 && out0.len() > 0 {
                    assert(out@[p] == out0[p]);
                    assert(out0[p] <= out0.last());
                    assert(out0.last() <= rest0[m as int]);
                }
            }
            assert forall|j: int| 0 <= j < rest@.len() implies out@.last() <= rest@[j] by {
                if j < m {
                    assert(rest@[j] == rest0[j]);
                } else {
                    assert(rest@[j] == rest0[j + 1]);
                }
            }
        }
    }
    proof {
        assert(rest@ =~= Seq::<u64>::empty());
        assert(rest@.to_multiset().len() == 0);
        assert(out@.to_multiset() =~= v@.to_multiset());
        v@.lemma_sort_by_ensures(u64_leq());
        assert(total_ordering(u64_leq()));
        lemma_ascending_is_sorted_by(out@);
        lemma_sorted_unique(out@, sorted_of(v@), u64_leq());
        assert(out@ =~= sorted_of(v@));
        assert(out@.len() == out@.to_multiset().len());
        assert(v@.len() == v@.to_multiset().len());
    }
    out
}

} // verus!
