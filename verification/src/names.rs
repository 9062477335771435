//! Putting names in order, byte by byte, as strings compare.

use vstd::prelude::*;
use crate::lines::bytes_of;
use crate::recency::is_arrangement;

verus! {

/// Whether `a` comes no later than `b`: at the first byte in which they
/// differ `a` has the smaller one, or `a` ends where `b` goes on.
pub open spec fn lex_le(a: Seq<u8>, b: Seq<u8>) -> bool
    decreases a.len(),
{
    if a.len() == 0 {
        true
    } else if b.len() == 0 {
        false
    } else if a[0] != b[0] {
        a[0] < b[0]
    } else {
        lex_le(a.skip(1), b.skip(1))
    }
}

/// Whether the name at place `a` comes before the name at place `b`: it is
/// smaller, or the same and came first.
pub open spec fn name_before(names: Seq<Seq<u8>>, a: int, b: int) -> bool {
    lex_le(names[a], names[b]) && (lex_le(names[b], names[a]) ==> a < b)
}

/// Whether `order` puts these names in rising order.
pub open spec fn is_name_order(names: Seq<Seq<u8>>, order: Seq<usize>) -> bool {
    &&& is_arrangement(order, names.len())
    &&& forall|i: int, j: int|
        0 <= i < j < order.len() ==> name_before(names, order[i] as int, order[j] as int)
}

/// Of two names, one comes no later than the other.
pub proof fn lemma_lex_total(a: Seq<u8>, b: Seq<u8>)
    ensures
        lex_le(a, b) || lex_le(b, a),
    decreases a.len(),
{
    if a.len() > 0 && b.len() > 0 && a[0] == b[0] {
        lemma_lex_total(a.skip(1), b.skip(1));
    }
}

/// What comes no later than a name that comes no later than a third comes no
/// later than the third.
pub proof fn lemma_lex_transitive(a: Seq<u8>, b: Seq<u8>, c: Seq<u8>)
    requires
        lex_le(a, b),
        lex_le(b, c),
    ensures
        lex_le(a, c),
    decreases a.len(),
{
    if a.len() > 0 && a[0] == b[0] && b[0] == c[0] {
        lemma_lex_transitive(a.skip(1), b.skip(1), c.skip(1));
    }
}

/// Whether `a` comes no later than `b`.
pub fn bytes_le(a: &[u8], b: &[u8]) -> (yes: bool)
    ensures
        yes == lex_le(a@, b@),
{
    let mut i: usize = 0;
    proof {
        assert(a@.skip(0) =~= a@);
        assert(b@.skip(0) =~= b@);
    }
    loop
        invariant
            i <= a@.len(),
            i <= b@.len(),
            lex_le(a@, b@) == lex_le(a@.skip(i as int), b@.skip(i as int)),
        decreases a@.len() - i,
    {
        if i == a.len() {
            return true;
        }
        if i == b.len() {
            return false;
        }
        proof {
            assert(a@.skip(i as int)[0] == a@[i as int]);
            assert(b@.skip(i as int)[0] == b@[i as int]);
            assert(a@.skip(i as int).skip(1) =~= a@.skip(i + 1));
            assert(b@.skip(i as int).skip(1) =~= b@.skip(i + 1));
        }
        if a[i] != b[i] {
            return a[i] < b[i];
        }
        i = i + 1;
    }
}

/// The order that puts these names in rising order; names that are the same
/// stay in the order in which they came.
pub fn name_order(names: &Vec<Vec<u8>>) -> (order: Vec<usize>)
    ensures
        is_name_order(bytes_of(names@), order@),
{
    let ghost all = bytes_of(names@);
    let n: usize = names.len();
    let mut order: Vec<usize> = Vec::new();
    let mut i: usize = 0;
    while i < n
        invariant
            n == names@.len(),
            all == bytes_of(names@),
            i <= n,
            order@.len() == i,
            forall|k: int| 0 <= k < order@.len() ==> order@[k] < i,
            forall|a: int, b: int| 0 <= a < b < order@.len() ==> order@[a] != order@[b],
            forall|a: int, b: int|
                0 <= a < b < order@.len() ==> name_before(all, order@[a] as int, order@[b] as int),
        decreases n - i,
    {
        let mut at: usize = 0;
        while at < order.len() && bytes_le(names[order[at]].as_slice(), names[i].as_slice())
            invariant
                n == names@.len(),
                all == bytes_of(names@),
                i < n,
                at <= order@.len(),
                forall|k: int| 0 <= k < order@.len() ==> order@[k] < i,
                forall|k: int| 0 <= k < at ==> lex_le(all[order@[k] as int], all[i as int]),
            decreases order@.len() - at,
        {
            at = at + 1;
        }
        let ghost before = order@;
        order.insert(at, i);
        proof {
            assert(order@ == before.insert(at as int, i));
            assert forall|a: int, b: int| 0 <= a < b < order@.len() implies order@[a] != order@[b]
                && name_before(all, order@[a] as int, order@[b] as int) by {
                if b < at {
                } else if a < at && b == at {
                } else if a < at && b > at {
                    assert(order@[b] == before[b - 1]);
                } else if a == at {
                    assert(order@[b] == before[b - 1]);
                    let first = all[before[at as int] as int];
                    let here = all[i as int];
                    let other = all[before[b - 1] as int];
                    assert(!lex_le(first, here));
                    if b - 1 > at {
                        assert(name_before(all, before[at as int] as int, before[b - 1] as int));
                    }
                    assert(lex_le(first, other)) by {
                        if b - 1 == at {
                            lemma_lex_total(first, first);
                        }
                    }
                    if lex_le(other, here) {
                        lemma_lex_transitive(first, other, here);
                    }
                    lemma_lex_total(here, other);
                } else {
                    assert(order@[a] == before[a - 1]);
                    assert(order@[b] == before[b - 1]);
                }
            }
            assert forall|k: int| 0 <= k < order@.len() implies order@[k] < i + 1 by {
                if k < at {
                } else if k > at {
                    assert(order@[k] == before[k - 1]);
                }
            }
        }
        i = i + 1;
    }
    order
}

} // verus!
