//! The order in which scheduled ticks run.
use vstd::prelude::*;
use vstd::std_specs::cmp::PartialEqSpec;

use crate::position::BlockPos;

verus! {

/// A tick of a block or fluid that is due.
#[derive(Debug)]
pub struct ScheduledTick<T> {
    /// The block.
    pub pos: BlockPos,
    /// What ticks.
    pub tick_type: T,
    /// Ticks with a lower number run first.
    pub priority: i8,
    /// Orders ticks of one priority.
    pub sub_tick_order: i64,
}

impl<T: Copy> Clone for ScheduledTick<T> {
    fn clone(&self) -> (tick: Self)
        ensures
            tick == *self,
    {
        *self
    }
}

impl<T: Copy> Copy for ScheduledTick<T> {

}

impl<T> ScheduledTick<T> {
    /// What ticks are ordered by.
    pub open spec fn rank(self) -> (i8, i64) {
        (self.priority, self.sub_tick_order)
    }
}

impl<T: PartialEq> ScheduledTick<T> {
    /// Returns whether what is at the block now is still what was to tick. A
    /// due tick of something else is dropped.
    #[must_use]
    pub fn applies_to(&self, current: &T) -> (result: bool)
        ensures
            T::obeys_eq_spec() ==> result == current.eq_spec(&self.tick_type),
    {
        *current == self.tick_type
    }
}

/// A rank comes before another one or is the same.
pub open spec fn rank_le(a: (i8, i64), b: (i8, i64)) -> bool {
    a.0 < b.0 || a.0 == b.0 && a.1 <= b.1
}

/// Ticks are in the order of their ranks.
pub open spec fn ticks_sorted<T>(ticks: Seq<ScheduledTick<T>>) -> bool {
    forall|i: int, j: int|
        0 <= i < j < ticks.len() ==> rank_le(
            (#[trigger] ticks[i]).rank(),
            (#[trigger] ticks[j]).rank(),
        )
}

/// The ticks of one rank, in their order.
pub open spec fn of_rank<T>(ticks: Seq<ScheduledTick<T>>, rank: (i8, i64)) -> Seq<
    ScheduledTick<T>,
> {
    ticks.filter(|tick: ScheduledTick<T>| tick.rank() == rank)
}

/// The same ticks, with those of one rank in one order.
pub open spec fn same_by_rank<T>(a: Seq<ScheduledTick<T>>, b: Seq<ScheduledTick<T>>) -> bool {
    forall|rank: (i8, i64)| #[trigger] of_rank(a, rank) == of_rank(b, rank)
}

proof fn lemma_of_rank_push<T>(
    ticks: Seq<ScheduledTick<T>>,
    tick: ScheduledTick<T>,
    rank: (i8, i64),
)
    ensures
        of_rank(ticks.push(tick), rank) == (if tick.rank() == rank {
            of_rank(ticks, rank).push(tick)
        } else {
            of_rank(ticks, rank)
        }),
{
    reveal(Seq::filter);
    assert(ticks.push(tick).drop_last() =~= ticks);
}

proof fn lemma_of_rank_concat<T>(
    a: Seq<ScheduledTick<T>>,
    b: Seq<ScheduledTick<T>>,
    rank: (i8, i64),
)
    ensures
        of_rank(a + b, rank) == of_rank(a, rank) + of_rank(b, rank),
    decreases b.len(),
{
    if b.len() == 0 {
        reveal(Seq::filter);
        assert(a + b =~= a);
        assert(of_rank(a, rank) + of_rank(b, rank) =~= of_rank(a, rank));
    } else {
        let init = b.drop_last();
        lemma_of_rank_concat(a, init, rank);
        assert(b =~= init.push(b.last()));
        assert(a + b =~= (a + init).push(b.last()));
        lemma_of_rank_push(a + init, b.last(), rank);
        lemma_of_rank_push(init, b.last(), rank);
        assert(of_rank(a + b, rank) =~= of_rank(a, rank) + of_rank(b, rank));
    }
}

/// Ticks of other ranks only: none of this one.
proof fn lemma_of_rank_absent<T>(ticks: Seq<ScheduledTick<T>>, rank: (i8, i64))
    requires
        forall|i: int| 0 <= i < ticks.len() ==> (#[trigger] ticks[i]).rank() != rank,
    ensures
        of_rank(ticks, rank) == Seq::<ScheduledTick<T>>::empty(),
    decreases ticks.len(),
{
    reveal(Seq::filter);
    if ticks.len() > 0 {
        let init = ticks.drop_last();
        lemma_of_rank_absent(init, rank);
        assert(ticks =~= init.push(ticks.last()));
        lemma_of_rank_push(init, ticks.last(), rank);
        assert(ticks[ticks.len() - 1].rank() != rank);
    }
}

/// Ticks that are ordered by rank and agree by rank are the same sequence:
/// the order is the only one.
pub proof fn order_is_unique<T>(a: Seq<ScheduledTick<T>>, b: Seq<ScheduledTick<T>>)
    requires
        ticks_sorted(a),
        ticks_sorted(b),
        same_by_rank(a, b),
    ensures
        a == b,
    decreases a.len(),
{
    if a.len() == 0 {
        if b.len() > 0 {
            let rank = b.last().rank();
            lemma_of_rank_absent(a, rank);
            lemma_of_rank_push(b.drop_last(), b.last(), rank);
            assert(b =~= b.drop_last().push(b.last()));
            assert(of_rank(b, rank).last() == b.last());
            assert(of_rank(a, rank) == of_rank(b, rank));
            assert(of_rank(b, rank).len() > 0);
        }
        assert(a =~= b);
    } else {
        let x = a.last();
        assert(a =~= a.drop_last().push(x));
        lemma_of_rank_push(a.drop_last(), x, x.rank());
        assert(of_rank(a, x.rank()) == of_rank(b, x.rank()));
        if b.len() == 0 {
            lemma_of_rank_absent(b, x.rank());
        } else {
            let y = b.last();
            assert(b =~= b.drop_last().push(y));
            lemma_of_rank_push(b.drop_last(), y, y.rank());
            assert(of_rank(a, y.rank()) == of_rank(b, y.rank()));
            if x.rank() != y.rank() {
                if rank_le(x.rank(), y.rank()) {
                    assert forall|i: int| 0 <= i < a.len() implies (#[trigger] a[i]).rank()
                        != y.rank() by {
                        if i < a.len() - 1 {
                            assert(rank_le(a[i].rank(), a[a.len() - 1].rank()));
                        }
                    }
                    lemma_of_rank_absent(a, y.rank());
                } else {
                    assert forall|i: int| 0 <= i < b.len() implies (#[trigger] b[i]).rank()
                        != x.rank() by {
                        if i < b.len() - 1 {
                            assert(rank_le(b[i].rank(), b[b.len() - 1].rank()));
                        }
                    }
                    lemma_of_rank_absent(b, x.rank());
                }
            }
            assert(x.rank() == y.rank());
            assert(of_rank(a, x.rank()).last() == x);
            assert(of_rank(b, x.rank()).last() == y);
            assert forall|rank: (i8, i64)| #[trigger]
                of_rank(a.drop_last(), rank) == of_rank(b.drop_last(), rank) by {
                lemma_of_rank_push(a.drop_last(), x, rank);
                lemma_of_rank_push(b.drop_last(), y, rank);
                assert(of_rank(a, rank) == of_rank(b, rank));
                if rank == x.rank() {
                    assert(of_rank(a, rank).drop_last() =~= of_rank(a.drop_last(), rank));
                    assert(of_rank(b, rank).drop_last() =~= of_rank(b.drop_last(), rank));
                }
            }
            order_is_unique(a.drop_last(), b.drop_last());
        }
    }
}

fn runs_no_later<T>(a: &ScheduledTick<T>, b: &ScheduledTick<T>) -> (result: bool)
    ensures
        result == rank_le(a.rank(), b.rank()),
{
    a.priority < b.priority || a.priority == b.priority && a.sub_tick_order <= b.sub_tick_order
}

/// Merges two sorted sequences. Of ticks with one rank those of the first
/// sequence come first.
fn merge_ticks<T: Copy>(
    a: &Vec<ScheduledTick<T>>,
    b: &Vec<ScheduledTick<T>>,
) -> (merged: Vec<ScheduledTick<T>>)
    requires
        ticks_sorted(a@),
        ticks_sorted(b@),
    ensures
        ticks_sorted(merged@),
        same_by_rank(merged@, a@ + b@),
{
    let mut merged: Vec<ScheduledTick<T>> = Vec::new();
    let mut i: usize = 0;
    let mut j: usize = 0;
    proof {
        assert(a@.take(0) + b@.take(0) =~= merged@);
    }
    while i < a.len() || j < b.len()
        invariant
            i <= a@.len(),
            j <= b@.len(),
            ticks_sorted(a@),
            ticks_sorted(b@),
            ticks_sorted(merged@),
            forall|rank: (i8, i64)| #[trigger]
                of_rank(merged@, rank) == of_rank(a@.take(i as int), rank) + of_rank(
                    b@.take(j as int),
                    rank,
                ),
            forall|k: int, l: int|
                0 <= k < merged@.len() && i <= l < a@.len() ==> rank_le(
                    (#[trigger] merged@[k]).rank(),
                    (#[trigger] a@[l]).rank(),
                ),
            forall|k: int, l: int|
                0 <= k < merged@.len() && j <= l < b@.len() ==> rank_le(
                    (#[trigger] merged@[k]).rank(),
                    (#[trigger] b@[l]).rank(),
                ),
            forall|k: int, l: int|
                0 <= k < j && i <= l < a@.len() ==> (#[trigger] b@[k]).rank() != (
                #[trigger] a@[l]).rank(),
        decreases a@.len() - i + b@.len() - j,
    {
        let from_first: bool = j >= b.len() || i < a.len() && runs_no_later(&a[i], &b[j]);
        let ghost before = merged@;
        if from_first {
            let tick: ScheduledTick<T> = a[i];
            merged.push(tick);
            proof {
                assert(a@.take(i as int + 1) =~= a@.take(i as int).push(tick));
                assert forall|rank: (i8, i64)| #[trigger]
                    of_rank(merged@, rank) == of_rank(a@.take(i as int + 1), rank) + of_rank(
                        b@.take(j as int),
                        rank,
                    ) by {
                    lemma_of_rank_push(before, tick, rank);
                    lemma_of_rank_push(a@.take(i as int), tick, rank);
                    assert(of_rank(before, rank) == of_rank(a@.take(i as int), rank) + of_rank(
                        b@.take(j as int),
                        rank,
                    ));
                    if rank == tick.rank() {
                        assert forall|k: int| 0 <= k < j implies (#[trigger] b@.take(
                            j as int,
                        )[k]).rank() != rank by {
                            assert(b@[k].rank() != a@[i as int].rank());
                        }
                        lemma_of_rank_absent(b@.take(j as int), rank);
                    }
                    assert(of_rank(merged@, rank) =~= of_rank(a@.take(i as int + 1), rank)
                        + of_rank(b@.take(j as int), rank));
                }
                assert forall|k: int, l: int|
                    0 <= k < merged@.len() && j <= l < b@.len() implies rank_le(
                    (#[trigger] merged@[k]).rank(),
                    (#[trigger] b@[l]).rank(),
                ) by {
                    if k == before.len() && l > j {
                        assert(rank_le(b@[j as int].rank(), b@[l].rank()));
                    }
                }
            }
            i += 1;
        } else {
            let tick: ScheduledTick<T> = b[j];
            merged.push(tick);
            proof {
                assert(b@.take(j as int + 1) =~= b@.take(j as int).push(tick));
                assert forall|rank: (i8, i64)| #[trigger]
                    of_rank(merged@, rank) == of_rank(a@.take(i as int), rank) + of_rank(
                        b@.take(j as int + 1),
                        rank,
                    ) by {
                    lemma_of_rank_push(before, tick, rank);
                    lemma_of_rank_push(b@.take(j as int), tick, rank);
                    assert(of_rank(before, rank) == of_rank(a@.take(i as int), rank) + of_rank(
                        b@.take(j as int),
                        rank,
                    ));
                    assert(of_rank(merged@, rank) =~= of_rank(a@.take(i as int), rank)
                        + of_rank(b@.take(j as int + 1), rank));
                }
                assert forall|k: int, l: int|
                    0 <= k < merged@.len() && i <= l < a@.len() implies rank_le(
                    (#[trigger] merged@[k]).rank(),
                    (#[trigger] a@[l]).rank(),
                ) by {
                    if k == before.len() && l > i {
                        assert(rank_le(a@[i as int].rank(), a@[l].rank()));
                    }
                }
                assert forall|k: int, l: int| 0 <= k < j + 1 && i <= l < a@.len() implies (
                #[trigger] b@[k]).rank() != (#[trigger] a@[l]).rank() by {
                    if k == j {
                        assert(!rank_le(a@[i as int].rank(), tick.rank()));
                        if l > i {
                            assert(rank_le(a@[i as int].rank(), a@[l].rank()));
                        }
                    }
                }
            }
            j += 1;
        }
    }
    proof {
        assert(a@.take(i as int) =~= a@);
        assert(b@.take(j as int) =~= b@);
        assert forall|rank: (i8, i64)| #[trigger]
            of_rank(merged@, rank) == of_rank(a@ + b@, rank) by {
            lemma_of_rank_concat(a@, b@, rank);
        }
    }
    merged
}

/// Returns due ticks in the order in which they run: by priority, then by
/// their order in the tick, and as they came where both are the same.
#[must_use]
pub fn order_scheduled_ticks<T: Copy>(ticks: &[ScheduledTick<T>]) -> (ordered: Vec<
    ScheduledTick<T>,
>)
    ensures
        ticks_sorted(ordered@),
        same_by_rank(ordered@, ticks@),
{
    order_range(ticks, 0, ticks.len())
}

fn order_range<T: Copy>(
    ticks: &[ScheduledTick<T>],
    start: usize,
    end: usize,
) -> (ordered: Vec<ScheduledTick<T>>)
    requires
        start <= end <= ticks@.len(),
    ensures
        ticks_sorted(ordered@),
        same_by_rank(ordered@, ticks@.subrange(start as int, end as int)),
        start == 0 && end == ticks@.len() ==> same_by_rank(ordered@, ticks@),
    decreases end - start,
{
    proof {
        if start == 0 && end == ticks@.len() {
            assert(ticks@.subrange(0, end as int) =~= ticks@);
        }
    }
    if end - start <= 1 {
        let mut ordered: Vec<ScheduledTick<T>> = Vec::new();
        if start < end {
            ordered.push(ticks[start]);
        }
        assert(ordered@ =~= ticks@.subrange(start as int, end as int));
        return ordered;
    }
    let middle: usize = start + (end - start) / 2;
    let first: Vec<ScheduledTick<T>> = order_range(ticks, start, middle);
    let second: Vec<ScheduledTick<T>> = order_range(ticks, middle, end);
    let ordered: Vec<ScheduledTick<T>> = merge_ticks(&first, &second);
    proof {
        let all = ticks@.subrange(start as int, end as int);
        let low = ticks@.subrange(start as int, middle as int);
        let high = ticks@.subrange(middle as int, end as int);
        assert(all =~= low + high);
        assert forall|rank: (i8, i64)| #[trigger] of_rank(ordered@, rank) == of_rank(
            all,
            rank,
        ) by {
            assert(of_rank(ordered@, rank) == of_rank(first@ + second@, rank));
            lemma_of_rank_concat(first@, second@, rank);
            lemma_of_rank_concat(low, high, rank);
            assert(of_rank(first@, rank) == of_rank(low, rank));
            assert(of_rank(second@, rank) == of_rank(high, rank));
        }
    }
    ordered
}

} // verus!
