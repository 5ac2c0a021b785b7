//! The order in which a batch visits its records.

use vstd::prelude::*;

verus! {

/// Whether record `a` is visited before record `b`: fewer publications first,
/// ties in load order.
pub open spec fn before(counts: Seq<usize>, a: int, b: int) -> bool {
    counts[a] < counts[b] || (counts[a] == counts[b] && a < b)
}

/// Whether `order` lists every index of `counts` once, in visiting order.
pub open spec fn is_processing_order(counts: Seq<usize>, order: Seq<usize>) -> bool {
    &&& order.len() == counts.len()
    &&& forall|k: int| 0 <= k < order.len() ==> #[trigger] order[k] < counts.len()
    &&& forall|k: int, l: int|
        0 <= k < l < order.len() ==> before(counts, #[trigger] order[k] as int, #[trigger] order[l] as int)
}

/// The indices of the records, ordered by ascending publication count, ties
/// kept in load order.
pub fn processing_order(counts: &Vec<usize>) -> (r: Vec<usize>)
    ensures
        is_processing_order(counts@, r@),
{
    let mut order: Vec<usize> = Vec::new();
    let mut i: usize = 0;
    while i < counts.len()
        invariant
            0 <= i <= counts@.len(),
            order@.len() == i,
            forall|k: int| 0 <= k < order@.len() ==> #[trigger] order@[k] < i,
            forall|k: int, l: int|
                0 <= k < l < order@.len() ==> before(
                    counts@,
                    #[trigger] order@[k] as int,
                    #[trigger] order@[l] as int,
                ),
        decreases counts@.len() - i,
    {
        let c = counts[i];
        let mut p: usize = 0;
        while p < order.len() && counts[order[p]] <= c
            invariant
                0 <= p <= order@.len(),
                forall|k: int| 0 <= k < order@.len() ==> #[trigger] order@[k] < i,
                i < counts@.len(),
                c == counts@[i as int],
                forall|q: int| 0 <= q < p ==> counts@[#[trigger] order@[q] as int] <= c,
            decreases order@.len() - p,
        {
            p = p + 1;
        }
        let ghost old_order = order@;
        proof {
            if p < old_order.len() {
                assert(counts@[old_order[p as int] as int] > c);
                assert forall|q: int| p <= q < old_order.len() implies counts@[#[trigger] old_order[q] as int] > c by {
                    if q > p {
                        assert(before(counts@, old_order[p as int] as int, old_order[q] as int));
                    }
                }
            }
        }
        order.insert(p, i);
        proof {
            assert forall|k: int| 0 <= k < order@.len() implies #[trigger] order@[k] < i + 1 by {
                if k < p {
                    assert(order@[k] == old_order[k]);
                } else if k > p {
                    assert(order@[k] == old_order[k - 1]);
                }
            }
            assert forall|k: int, l: int| 0 <= k < l < order@.len() implies before(
                counts@,
                #[trigger] order@[k] as int,
                #[trigger] order@[l] as int,
            ) by {
                if l < p {
                    assert(order@[k] == old_order[k] && order@[l] == old_order[l]);
                } else if l == p {
                    assert(order@[k] == old_order[k]);
                } else if k < p {
                    assert(order@[k] == old_order[k] && order@[l] == old_order[l - 1]);
                } else if k == p {
                    assert(order@[l] == old_order[l - 1]);
                } else {
                    assert(order@[k] == old_order[k - 1] && order@[l] == old_order[l - 1]);
                }
            }
        }
        i = i + 1;
    }
    order
}

} // verus!
