//! The limits that govern how many workflows and runs are asked for, and the order in
//! which fetched runs are counted.

use vstd::prelude::*;
use crate::span::Moment;

verus! {

/// The number of workflows or runs that `list` and `describe` fetch when no limit is given.
pub fn default_limit() -> (r: u32)
    ensures
        r == 10,
{
    10
}

/// The number of runs that `analyze` fetches when no limit is given.
pub fn default_analyze_limit() -> (r: u32)
    ensures
        r == 100,
{
    100
}

/// The page size sent to GitHub for a limit: the limit cut to its low eight bits, as
/// the `per_page` parameter takes a `u8` (so a limit of 256 asks for pages of 0).
pub fn page_size(limit: u32) -> (r: u8)
    ensures
        r == limit % 256,
{
    (limit % 256) as u8
}

/// Whether enough runs have been collected to stop paging: `collected` runs are at
/// least `limit`.
pub fn enough_runs(collected: usize, limit: u32) -> (r: bool)
    ensures
        r == (collected >= limit),
{
    collected as u64 >= limit as u64
}

/// Instant `a` is no later than instant `b`, as `DateTime` orders them: by second, then
/// by the sub-second part.
pub open spec fn not_later(a: Moment, b: Moment) -> bool {
    a.secs < b.secs || (a.secs == b.secs && a.nanos <= b.nanos)
}

/// Whether instant `a` is no later than instant `b`.
pub fn is_not_later(a: Moment, b: Moment) -> (r: bool)
    ensures
        r == not_later(a, b),
{
    a.secs < b.secs || (a.secs == b.secs && a.nanos <= b.nanos)
}

/// `order` lists every position of `created` once, oldest instant first, positions with
/// equal instants in their given order (a stable sort by creation time).
pub open spec fn oldest_first(created: Seq<Moment>, order: Seq<usize>) -> bool {
    &&& order.len() == created.len()
    &&& forall|i: int| 0 <= i < order.len() ==> (#[trigger] order[i]) < created.len()
    &&& forall|i: int, j: int|
        0 <= i < j < order.len() ==> (#[trigger] order[i]) != (#[trigger] order[j])
    &&& forall|i: int, j: int|
        0 <= i < j < order.len() ==> not_later(
            created[(#[trigger] order[i]) as int],
            created[(#[trigger] order[j]) as int],
        )
    &&& forall|i: int, j: int|
        0 <= i < j < order.len() && created[(#[trigger] order[i]) as int] == created[(
        #[trigger] order[j]) as int] ==> order[i] < order[j]
}

/// The order in which to count runs created at the instants `created`: oldest first,
/// runs created at the same instant in the order given.
pub fn order_oldest_first(created: &Vec<Moment>) -> (order: Vec<usize>)
    ensures
        oldest_first(created@, order@),
{
    let n = created.len();
    let mut order: Vec<usize> = Vec::new();
    let mut idx: usize = 0;
    while idx < n
        invariant
            n == created@.len(),
            idx <= n,
            order@.len() == idx,
            forall|i: int| 0 <= i < order@.len() ==> (#[trigger] order@[i]) < idx,
            forall|i: int, j: int|
                0 <= i < j < order@.len() ==> (#[trigger] order@[i]) != (#[trigger] order@[j]),
            forall|i: int, j: int|
                0 <= i < j < order@.len() ==> not_later(
                    created@[(#[trigger] order@[i]) as int],
                    created@[(#[trigger] order@[j]) as int],
                ),
            forall|i: int, j: int|
                0 <= i < j < order@.len() && created@[(#[trigger] order@[i]) as int]
                    == created@[(#[trigger] order@[j]) as int] ==> order@[i] < order@[j],
        decreases n - idx,
    {
        let x = created[idx];
        let mut p: usize = 0;
        while p < order.len() && is_not_later(created[order[p]], x)
            invariant
                n == created@.len(),
                idx < n,
                x == created@[idx as int],
                p <= order@.len(),
                forall|i: int| 0 <= i < order@.len() ==> (#[trigger] order@[i]) < idx,
                forall|k: int| 0 <= k < p ==> not_later(created@[order@[k] as int], x),
            decreases order@.len() - p,
        {
            p = p + 1;
        }
        let ghost before = order@;
        proof {
            if p < before.len() {
                assert(!not_later(created@[before[p as int] as int], x));
            }
        }
        order.insert(p, idx);
        proof {
            assert(order@ == before.insert(p as int, idx));
            assert forall|i: int| 0 <= i < order@.len() implies (#[trigger] order@[i]) < idx + 1 by {
                if i < p {
                    assert(order@[i] == before[i]);
                } else if i > p {
                    assert(order@[i] == before[i - 1]);
                }
            }
            assert forall|i: int, j: int| 0 <= i < j < order@.len() implies {
                &&& (#[trigger] order@[i]) != (#[trigger] order@[j])
                &&& not_later(created@[order@[i] as int], created@[order@[j] as int])
                &&& (created@[order@[i] as int] == created@[order@[j] as int] ==> order@[i]
                    < order@[j])
            } by {
                if i < p && j == p {
                    assert(order@[i] == before[i]);
                } else if i < p && j > p {
                    assert(order@[i] == before[i]);
                    assert(order@[j] == before[j - 1]);
                    if p < before.len() {
                        assert(not_later(created@[before[p as int] as int], created@[before[j - 1] as int]) || j - 1 == p);
                    }
                } else if i == p {
                    assert(order@[j] == before[j - 1]);
                    assert(not_later(created@[before[p as int] as int], created@[before[j - 1] as int]) || j - 1 == p);
                } else if i > p {
                    assert(order@[i] == before[i - 1]);
                    assert(order@[j] == before[j - 1]);
                } else {
                    assert(order@[i] == before[i]);
                    assert(order@[j] == before[j]);
                }
            }
        }
        idx = idx + 1;
    }
    order
}

} // verus!
