use vstd::prelude::*;
use vstd::relations::{sorted_by, total_ordering};

verus! {

/// Order on positions `p` of `times`: by time, ties by position (a stable order).
pub open spec fn time_pos_leq(times: Seq<i128>) -> spec_fn(usize, usize) -> bool {
    |p: usize, q: usize|
        times[p as int] < times[q as int] || (times[p as int] == times[q as int] && p <= q)
}

pub open spec fn positions_upto(n: int) -> Seq<usize> {
    Seq::new(n as nat, |p: int| p as usize)
}

/// Positions `0..times.len()` ordered by time; equal times keep their order.
pub open spec fn stable_order_spec(times: Seq<i128>) -> Seq<usize> {
    positions_upto(times.len() as int).sort_by(time_pos_leq(times))
}

pub proof fn lemma_time_pos_leq_total(times: Seq<i128>)
    ensures
        total_ordering(time_pos_leq(times)),
{
    let leq = time_pos_leq(times);
    assert(vstd::relations::reflexive(leq));
    assert(vstd::relations::antisymmetric(leq));
    assert(vstd::relations::transitive(leq));
    assert(vstd::relations::strongly_connected(leq));
}

proof fn lemma_positions_upto_push(n: int)
    requires
        n >= 0,
    ensures
        positions_upto(n + 1) == positions_upto(n).push(n as usize),
{
    assert(positions_upto(n + 1) =~= positions_upto(n).push(n as usize));
}

/// The stable order holds every position exactly once.
pub proof fn lemma_stable_order_positions(times: Seq<i128>)
    ensures
        stable_order_spec(times).len() == times.len(),
        forall|i: int|
            0 <= i < stable_order_spec(times).len() ==> #[trigger] stable_order_spec(times)[i]
                < times.len(),
        sorted_by(stable_order_spec(times), time_pos_leq(times)),
{
    broadcast use vstd::seq_lib::group_to_multiset_ensures;

    let leq = time_pos_leq(times);
    let p = positions_upto(times.len() as int);
    lemma_time_pos_leq_total(times);
    p.lemma_sort_by_ensures(leq);
    let s = p.sort_by(leq);
    assert(s.len() == s.to_multiset().len());
    assert(p.len() == p.to_multiset().len());
    assert forall|i: int| 0 <= i < s.len() implies #[trigger] s[i] < times.len() by {
        assert(s.contains(s[i]));
        assert(p.contains(s[i]));
    }
}

/// Positions of `times` in stable time order (insertion sort).
pub fn stable_order(times: &Vec<i128>) -> (r: Vec<usize>)
    ensures
        r@ == stable_order_spec(times@),
{
    let ghost leq = time_pos_leq(times@);
    let mut order: Vec<usize> = Vec::new();
    let mut p: usize = 0;
    assert(order@ =~= positions_upto(0));
    while p < times.len()
        invariant
            p <= times@.len(),
            leq == time_pos_leq(times@),
            order@.to_multiset() == positions_upto(p as int).to_multiset(),
            sorted_by(order@, leq),
            forall|i: int| 0 <= i < order@.len() ==> #[trigger] order@[i] < p,
        decreases times@.len() - p,
    {
        let tp = times[p];
        let mut q: usize = 0;
        while q < order.len() && times[order[q]] <= tp
            invariant
                q <= order@.len(),
                p < times@.len(),
                forall|i: int| 0 <= i < order@.len() ==> #[trigger] order@[i] < p,
                tp == times@[p as int],
                forall|i: int| 0 <= i < q ==> times@[#[trigger] order@[i] as int] <= tp,
            decreases order@.len() - q,
        {
            q = q + 1;
        }
        let ghost old_order = order@;
        order.insert(q, p);
        proof {
            broadcast use vstd::seq_lib::group_to_multiset_ensures;

            lemma_positions_upto_push(p as int);
            assert(order@ == old_order.insert(q as int, p));
            assert(order@.to_multiset() == old_order.to_multiset().insert(p));
            assert forall|i: int, j: int| 0 <= i < j < order@.len() implies #[trigger] leq(
                order@[i],
                order@[j],
            ) by {
                if j < q {
                    assert(leq(old_order[i], old_order[j]));
                } else if j == q {
                    assert(times@[old_order[i] as int] <= tp);
                } else if i < q {
                    assert(leq(old_order[i], old_order[j - 1]));
                } else if i == q {
                    assert(leq(old_order[q as int], old_order[j - 1]) || q as int == j - 1);
                    assert(!(times@[old_order[q as int] as int] <= tp));
                } else {
                    assert(leq(old_order[i - 1], old_order[j - 1]));
                }
            }
        }
        p = p + 1;
    }
    proof {
        lemma_time_pos_leq_total(times@);
        positions_upto(times@.len() as int).lemma_sort_by_ensures(leq);
        vstd::seq_lib::lemma_sorted_unique(
            order@,
            positions_upto(times@.len() as int).sort_by(leq),
            leq,
        );
    }
    order
}

} // verus!
