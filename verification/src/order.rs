//! Ordering rows by time.

use vstd::prelude::*;
use crate::time::Timestamp;

verus! {

/// Of two entries, each an instant with the place it holds among the rows,
/// the first is listed before the second: it is the newer one where the
/// newest come first, the older one otherwise, and where the instants are
/// equal it is the one that holds the earlier place.
pub open spec fn listed_before(
    a: Timestamp,
    i: int,
    b: Timestamp,
    j: int,
    newest_first: bool,
) -> bool {
    if newest_first {
        b.is_before(a) || (a == b && i < j)
    } else {
        a.is_before(b) || (a == b && i < j)
    }
}

/// `order` lists every place among `stamps` exactly once, in the order in
/// which the entries are listed.
pub open spec fn is_ordering(stamps: Seq<Timestamp>, newest_first: bool, order: Seq<usize>) -> bool {
    &&& order.len() == stamps.len()
    &&& forall|k: int| 0 <= k < order.len() ==> (#[trigger] order[k]) < stamps.len()
    &&& forall|a: int, b: int|
        0 <= a < b < order.len() ==> listed_before(
            stamps[(#[trigger] order[a]) as int],
            order[a] as int,
            stamps[(#[trigger] order[b]) as int],
            order[b] as int,
            newest_first,
        )
    &&& forall|p: int| 0 <= p < stamps.len() ==> #[trigger] lists(order, p)
}

/// The place `p` occurs in `order`.
pub open spec fn lists(order: Seq<usize>, p: int) -> bool {
    exists|k: int| 0 <= k < order.len() && (#[trigger] order[k]) == p
}

/// Decides whether the entry at place `i` is listed before the one at
/// place `j`.
fn goes_before(stamps: &Vec<Timestamp>, i: usize, j: usize, newest_first: bool) -> (r: bool)
    requires
        i < stamps@.len(),
        j < stamps@.len(),
    ensures
        r == listed_before(stamps@[i as int], i as int, stamps@[j as int], j as int, newest_first),
{
    let a = stamps[i];
    let b = stamps[j];
    if newest_first {
        b.before(&a) || (a == b && i < j)
    } else {
        a.before(&b) || (a == b && i < j)
    }
}

/// Puts the places of `stamps` in listing order: by time, the newest first
/// or the oldest first, and in the order of the places where the times are
/// equal.
pub fn sorted_positions(stamps: &Vec<Timestamp>, newest_first: bool) -> (order: Vec<usize>)
    ensures
        is_ordering(stamps@, newest_first, order@),
{
    let mut order: Vec<usize> = Vec::new();
    let mut n: usize = 0;
    while n < stamps.len()
        invariant
            n <= stamps@.len(),
            order@.len() == n,
            forall|k: int| 0 <= k < order@.len() ==> (#[trigger] order@[k]) < n,
            forall|a: int, b: int|
                0 <= a < b < order@.len() ==> listed_before(
                    stamps@[(#[trigger] order@[a]) as int],
                    order@[a] as int,
                    stamps@[(#[trigger] order@[b]) as int],
                    order@[b] as int,
                    newest_first,
                ),
            forall|p: int| 0 <= p < n ==> #[trigger] lists(order@, p),
        decreases stamps@.len() - n,
    {
        let mut j: usize = order.len();
        while j > 0 && goes_before(stamps, n, order[j - 1], newest_first)
            invariant
                n < stamps@.len(),
                order@.len() == n,
                j <= order@.len(),
                forall|k: int| 0 <= k < order@.len() ==> (#[trigger] order@[k]) < n,
                forall|k: int|
                    j <= k < order@.len() ==> listed_before(
                        stamps@[n as int],
                        n as int,
                        stamps@[(#[trigger] order@[k]) as int],
                        order@[k] as int,
                        newest_first,
                    ),
            decreases j,
        {
            j = j - 1;
        }
        let ghost prev = order@;
        proof {
            assert forall|k: int| 0 <= k < j implies listed_before(
                stamps@[(#[trigger] prev[k]) as int],
                prev[k] as int,
                stamps@[n as int],
                n as int,
                newest_first,
            ) by {
                let last = prev[j - 1];
                assert(last < n);
                assert(!listed_before(
                    stamps@[n as int],
                    n as int,
                    stamps@[last as int],
                    last as int,
                    newest_first,
                ));
                if k < j - 1 {
                    assert(listed_before(
                        stamps@[prev[k] as int],
                        prev[k] as int,
                        stamps@[last as int],
                        last as int,
                        newest_first,
                    ));
                }
            }
        }
        order.insert(j, n);
        proof {
            assert forall|p: int| 0 <= p < n + 1 implies #[trigger] lists(order@, p) by {
                if p < n {
                    assert(lists(prev, p));
                    let k0 = choose|k: int| 0 <= k < prev.len() && (#[trigger] prev[k]) == p;
                    let k1 = if k0 < j { k0 } else { k0 + 1 };
                    assert(order@[k1] == p);
                } else {
                    assert(order@[j as int] == p);
                }
            }
            assert forall|a: int, b: int| 0 <= a < b < order@.len() implies listed_before(
                stamps@[(#[trigger] order@[a]) as int],
                order@[a] as int,
                stamps@[(#[trigger] order@[b]) as int],
                order@[b] as int,
                newest_first,
            ) by {
                if b < j {
                    assert(order@[a] == prev[a] && order@[b] == prev[b]);
                } else if b == j {
                    assert(order@[a] == prev[a]);
                } else if a < j {
                    assert(order@[a] == prev[a] && order@[b] == prev[b - 1]);
                } else if a == j {
                    assert(order@[b] == prev[b - 1]);
                } else {
                    assert(order@[a] == prev[a - 1] && order@[b] == prev[b - 1]);
                }
            }
        }
        n = n + 1;
    }
    order
}

} // verus!
