//! Putting things in order of their time, newest first.
//!
//! An order is a list of places: the place of the newest thing first. Things
//! of the same time stay in the order in which they came.

use vstd::prelude::*;

verus! {

/// Whether `order` lists each of the places below `n` once.
pub open spec fn is_arrangement(order: Seq<usize>, n: nat) -> bool {
    &&& order.len() == n
    &&& forall|i: int| 0 <= i < order.len() ==> order[i] < n
    &&& forall|i: int, j: int| 0 <= i < j < order.len() ==> order[i] != order[j]
}

/// Whether the thing at place `a` comes before the thing at place `b`: it is
/// newer, or as old and came first.
pub open spec fn comes_before(times: Seq<i128>, a: int, b: int) -> bool {
    times[a] > times[b] || (times[a] == times[b] && a < b)
}

/// Whether `order` puts the things with these times newest first.
pub open spec fn is_newest_first(times: Seq<i128>, order: Seq<usize>) -> bool {
    &&& is_arrangement(order, times.len())
    &&& forall|i: int, j: int|
        0 <= i < j < order.len() ==> comes_before(times, order[i] as int, order[j] as int)
}

/// The order that puts the things with these times newest first.
pub fn newest_first(times: &Vec<i128>) -> (order: Vec<usize>)
    ensures
        is_newest_first(times@, order@),
{
    let n: usize = times.len();
    let mut order: Vec<usize> = Vec::new();
    let mut i: usize = 0;
    while i < n
        invariant
            n == times@.len(),
            i <= n,
            order@.len() == i,
            forall|k: int| 0 <= k < order@.len() ==> order@[k] < i,
            forall|a: int, b: int| 0 <= a < b < order@.len() ==> order@[a] != order@[b],
            forall|a: int, b: int|
                0 <= a < b < order@.len() ==> comes_before(
                    times@,
                    order@[a] as int,
                    order@[b] as int,
                ),
        decreases n - i,
    {
        let mut at: usize = 0;
        while at < order.len() && times[order[at]] >= times[i]
            invariant
                n == times@.len(),
                i < n,
                at <= order@.len(),
                forall|k: int| 0 <= k < order@.len() ==> order@[k] < i,
                forall|k: int| 0 <= k < at ==> times@[order@[k] as int] >= times@[i as int],
            decreases order@.len() - at,
        {
            at = at + 1;
        }
        let ghost before = order@;
        order.insert(at, i);
        proof {
            assert(order@ == before.insert(at as int, i));
            assert forall|a: int, b: int| 0 <= a < b < order@.len() implies order@[a] != order@[b]
                && comes_before(times@, order@[a] as int, order@[b] as int) by {
                if b < at {
                } else if a < at && b == at {
                } else if a < at && b > at {
                    assert(order@[b] == before[b - 1]);
                } else if a == at {
                    assert(order@[b] == before[b - 1]);
                    if b - 1 > at {
                        assert(comes_before(times@, before[at as int] as int, before[b - 1] as int));
                    }
                } else {
                    assert(order@[a] == before[a - 1]);
                    assert(order@[b] == before[b - 1]);
                }
            }
            assert forall|k: int| 0 <= k < order@.len() implies order@[k] < i + 1 by {
                if k < at {
                } else if k > at {
                    assert(order@[k] == before[k - 1]);
                }
            }
        }
        i = i + 1;
    }
    order
}

/// The places that stand behind the first `keep_count` of an order: what a
/// cleanup removes when it keeps the `keep_count` newest.
pub fn beyond_kept(order: Vec<usize>, keep_count: usize) -> (rest: Vec<usize>)
    ensures
        rest@ == (if order@.len() > keep_count {
            order@.skip(keep_count as int)
        } else {
            Seq::<usize>::empty()
        }),
{
    let mut rest: Vec<usize> = Vec::new();
    if keep_count >= order.len() {
        return rest;
    }
    let mut i: usize = keep_count;
    while i < order.len()
        invariant
            keep_count <= i <= order@.len(),
            rest@ =~= order@.subrange(keep_count as int, i as int),
        decreases order@.len() - i,
    {
        rest.push(order[i]);
        i = i + 1;
    }
    rest
}

} // verus!
