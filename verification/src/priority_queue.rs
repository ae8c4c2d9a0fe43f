//! A bucket priority queue: one FIFO queue per priority level, popped from
//! the highest non-empty level.

use std::collections::VecDeque;
use vstd::prelude::*;

verus! {

broadcast use vstd::std_specs::vecdeque::group_vec_dequeue_axioms;

/// A queue of values with small integer priorities.  Values of the same
/// priority come out in insertion order; higher priorities come out first.
#[derive(Debug, Clone)]
pub struct PriorityQueue<T> {
    /// One FIFO queue per priority level, lowest level first.
    pub queues: Vec<VecDeque<T>>,
}

impl<T> PriorityQueue<T> {
    /// An empty queue accepting priorities up to and including
    /// `max_priority`.
    pub fn new(max_priority: u8) -> (r: Self)
        ensures
            r.queues@.len() == max_priority + 1,
            forall|i: int| 0 <= i <= max_priority ==> (#[trigger] r.queues@[i])@ =~= Seq::<T>::empty(),
    {
        let mut queues: Vec<VecDeque<T>> = Vec::new();
        let mut i: usize = 0;
        let levels = max_priority as usize + 1;
        while i < levels
            invariant
                0 <= i <= levels,
                levels == max_priority + 1,
                queues@.len() == i,
                forall|j: int| 0 <= j < i ==> (#[trigger] queues@[j])@ =~= Seq::<T>::empty(),
            decreases levels - i,
        {
            queues.push(VecDeque::new());
            i = i + 1;
        }
        PriorityQueue { queues }
    }

    /// Append a value at the given priority level.
    pub fn push(&mut self, priority: u8, value: T)
        requires
            (priority as int) < old(self).queues@.len(),
        ensures
            final(self).queues@.len() == old(self).queues@.len(),
            (final(self).queues@[priority as int])@ == (old(self).queues@[priority as int])@.push(
                value,
            ),
            forall|i: int|
                0 <= i < old(self).queues@.len() && i != priority ==> (final(self).queues@[i])@
                    == (#[trigger] old(self).queues@[i])@,
    {
        self.queues[priority as usize].push_back(value);
    }

    /// Remove and return the front value of the highest non-empty priority
    /// level, with its priority, or `None` when the queue holds nothing.
    #[verifier::rlimit(50)]
    pub fn pop(&mut self) -> (r: Option<(u8, T)>)
        requires
            old(self).queues@.len() <= 256,
        ensures
            final(self).queues@.len() == old(self).queues@.len(),
            r is None ==> forall|i: int|
                0 <= i < old(self).queues@.len() ==> (final(self).queues@[i])@ == (
                #[trigger] old(self).queues@[i])@,
            r is None ==> forall|i: int|
                0 <= i < old(self).queues@.len() ==> (#[trigger] old(self).queues@[i])@.len()
                    == 0,
            r is Some ==> ({
                let pv = r.unwrap();
                &&& (pv.0 as int) < old(self).queues@.len()
                &&& (old(self).queues@[pv.0 as int])@.len() > 0
                &&& pv.1 == (old(self).queues@[pv.0 as int])@[0]
                &&& (final(self).queues@[pv.0 as int])@ == (old(
                    self,
                ).queues@[pv.0 as int])@.subrange(
                    1,
                    (old(self).queues@[pv.0 as int])@.len() as int,
                )
                &&& forall|i: int|
                    0 <= i < old(self).queues@.len() && i != pv.0 ==> (final(self).queues@[i])@
                        == (#[trigger] old(self).queues@[i])@
                &&& forall|i: int|
                    pv.0 < i < old(self).queues@.len() ==> (#[trigger] old(
                        self,
                    ).queues@[i])@.len() == 0
            }),
    {
        let mut i = self.queues.len();
        while i > 0
            invariant
                old(self).queues@.len() <= 256,
                0 <= i <= self.queues@.len(),
                self.queues@.len() == old(self).queues@.len(),
                forall|j: int|
                    0 <= j < self.queues@.len() ==> (#[trigger] self.queues@[j])@ == (old(
                    self,
                ).queues@[j])@,
                forall|j: int|
                    i <= j < self.queues@.len() ==> (#[trigger] self.queues@[j])@.len() == 0,
            decreases i,
        {
            i = i - 1;
            let popped = self.queues[i].pop_front();
            match popped {
                Some(value) => {
                    proof {
                        assert(self.queues@.len() == old(self).queues@.len());
                        assert((old(self).queues@[i as int])@.len() > 0);
                        assert(value == (old(self).queues@[i as int])@[0]);
                        assert((self.queues@[i as int])@ == (old(
                            self,
                        ).queues@[i as int])@.subrange(
                            1,
                            (old(self).queues@[i as int])@.len() as int,
                        ));
                        assert(forall|j: int|
                            0 <= j < old(self).queues@.len() && j != i ==> (self.queues@[j])@ == (
                            #[trigger] old(self).queues@[j])@);
                        assert(forall|j: int|
                            i < j < old(self).queues@.len() ==> (#[trigger] old(
                                self,
                            ).queues@[j])@.len() == 0);
                    }
                    return Some((i as u8, value));
                },
                None => {
                },
            }
        }
        proof {
            assert(forall|j: int|
                0 <= j < old(self).queues@.len() ==> (self.queues@[j])@ == (#[trigger] old(
                    self,
                ).queues@[j])@);
            assert(forall|j: int|
                0 <= j < old(self).queues@.len() ==> (#[trigger] old(self).queues@[j])@.len()
                    == 0);
        }
        None
    }

    /// How many values the queue holds, over all priority levels.  The sum
    /// is reported exactly whenever it fits the machine word.
    pub fn len(&self) -> (r: usize)
        ensures
            spec_level_total::<T>(self.queues@, self.queues@.len() as int) <= usize::MAX ==> r
                == spec_level_total::<T>(self.queues@, self.queues@.len() as int),
    {
        let mut total: usize = 0;
        let mut i: usize = 0;
        let mut exact: bool = true;
        while i < self.queues.len()
            invariant
                0 <= i <= self.queues@.len(),
                exact ==> total == spec_level_total::<T>(self.queues@, i as int),
                !exact ==> spec_level_total::<T>(self.queues@, i as int) > usize::MAX,
                spec_level_total::<T>(self.queues@, i as int) >= total,
            decreases self.queues@.len() - i,
        {
            let level_len = self.queues[i].len();
            proof {
                lemma_level_total_mono::<T>(self.queues@, i as int);
            }
            match total.checked_add(level_len) {
                Some(t) => {
                    total = t;
                },
                None => {
                    exact = false;
                },
            }
            i = i + 1;
        }
        total
    }
}

/// The summed length of the first `m` priority levels.
pub open spec fn spec_level_total<T>(levels: Seq<VecDeque<T>>, m: int) -> int
    decreases m,
{
    if m <= 0 {
        0
    } else {
        spec_level_total(levels, m - 1) + levels[m - 1]@.len()
    }
}

/// Level sums only grow as more levels are counted.
proof fn lemma_level_total_mono<T>(levels: Seq<VecDeque<T>>, m: int)
    requires
        0 <= m,
    ensures
        spec_level_total(levels, m + 1) >= spec_level_total(levels, m),
{
}

} // verus!
