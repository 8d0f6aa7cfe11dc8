//! Counts of answers by their status.

use vstd::prelude::*;

verus! {

/// How often each status was answered.
pub struct StatusCounts {
    pub counts: Vec<(u16, u64)>,
}

/// How often a status is counted: by the first entry of it.
pub open spec fn count_in(counts: Seq<(u16, u64)>, status: u16) -> u64
    decreases counts.len(),
{
    if counts.len() == 0 {
        0
    } else if counts[0].0 == status {
        counts[0].1
    } else {
        count_in(counts.drop_first(), status)
    }
}

proof fn count_skip(counts: Seq<(u16, u64)>, status: u16, i: int)
    requires
        0 <= i <= counts.len(),
        forall|j: int| 0 <= j < i ==> (#[trigger] counts[j]).0 != status,
    ensures
        count_in(counts, status) == count_in(counts.skip(i), status),
    decreases i,
{
    if i == 0 {
        assert(counts.skip(0) =~= counts);
    } else {
        count_skip(counts.drop_first(), status, i - 1);
        assert(counts.drop_first().skip(i - 1) =~= counts.skip(i));
    }
}

proof fn count_update(counts: Seq<(u16, u64)>, i: int, n: u64, other: u16)
    requires
        0 <= i < counts.len(),
        forall|j: int| 0 <= j < i ==> (#[trigger] counts[j]).0 != counts[i].0,
    ensures
        count_in(counts.update(i, (counts[i].0, n)), other) == if other == counts[i].0 {
            n
        } else {
            count_in(counts, other)
        },
    decreases i,
{
    let after = counts.update(i, (counts[i].0, n));
    if i == 0 {
        assert(after.drop_first() =~= counts.drop_first());
    } else {
        count_update(counts.drop_first(), i - 1, n, other);
        assert(after.drop_first() =~= counts.drop_first().update(i - 1, (counts[i].0, n)));
    }
}

proof fn count_push(counts: Seq<(u16, u64)>, status: u16, n: u64, other: u16)
    requires
        forall|j: int| 0 <= j < counts.len() ==> (#[trigger] counts[j]).0 != status,
    ensures
        count_in(counts.push((status, n)), other) == if other == status {
            n
        } else {
            count_in(counts, other)
        },
    decreases counts.len(),
{
    let after = counts.push((status, n));
    reveal_with_fuel(count_in, 2);
    if counts.len() == 0 {
        assert(after.drop_first() =~= seq![]);
    } else {
        count_push(counts.drop_first(), status, n, other);
        assert(after.drop_first() =~= counts.drop_first().push((status, n)));
    }
}

impl StatusCounts {
    pub open spec fn of(&self, status: u16) -> u64 {
        count_in(self.counts@, status)
    }

    /// Each status that was counted is listed once, and no other is listed.
    pub open spec fn wf(&self) -> bool {
        &&& forall|i: int, j: int|
            0 <= i < j < self.counts@.len() ==> (#[trigger] self.counts@[i]).0 != (
            #[trigger] self.counts@[j]).0
        &&& forall|i: int| 0 <= i < self.counts@.len() ==> (#[trigger] self.counts@[i]).1 > 0
    }

    pub fn new() -> (counts: Self)
        ensures
            counts.wf(),
            counts.counts@ == Seq::<(u16, u64)>::empty(),
            forall|status: u16| #[trigger] counts.of(status) == 0,
    {
        StatusCounts { counts: Vec::new() }
    }

    /// Counts a status so many times more.
    pub fn add(&mut self, status: u16, n: u64)
        requires
            old(self).wf(),
            old(self).of(status) + n <= u64::MAX,
        ensures
            final(self).wf(),
            forall|other: u16|
                #[trigger] final(self).of(other) == if other == status {
                    old(self).of(other) + n
                } else {
                    old(self).of(other) as int
                },
    {
        if n == 0 {
            return ;
        }
        let mut i: usize = 0;
        while i < self.counts.len()
            invariant
                n > 0,
                i <= self.counts@.len(),
                self.wf(),
                self.counts == old(self).counts,
                old(self).of(status) + n <= u64::MAX,
                forall|j: int| 0 <= j < i ==> (#[trigger] self.counts@[j]).0 != status,
            decreases self.counts@.len() - i,
        {
            if self.counts[i].0 == status {
                let ghost before = self.counts@;
                proof {
                    count_skip(before, status, i as int);
                    assert(before.skip(i as int)[0] == before[i as int]);
                }
                let sum: u64 = self.counts[i].1 + n;
                self.counts.set(i, (status, sum));
                proof {
                    assert forall|other: u16| #[trigger] self.of(other) == if other == status {
                        old(self).of(other) + n
                    } else {
                        old(self).of(other) as int
                    } by {
                        count_update(before, i as int, sum, other);
                    }
                }
                return;
            }
            i = i + 1;
        }
        let ghost before = self.counts@;
        proof {
            count_skip(before, status, i as int);
            assert(before.skip(i as int) =~= seq![]);
        }
        self.counts.push((status, n));
        proof {
            assert forall|other: u16| #[trigger] self.of(other) == if other == status {
                old(self).of(other) + n
            } else {
                old(self).of(other) as int
            } by {
                count_push(before, status, n, other);
            }
        }
    }

    /// Adds the counts of another.
    pub fn merge(&mut self, other: &StatusCounts)
        requires
            old(self).wf(),
            other.wf(),
            forall|status: u16| #[trigger] old(self).of(status) + other.of(status) <= u64::MAX,
        ensures
            final(self).wf(),
            forall|status: u16|
                #[trigger] final(self).of(status) == old(self).of(status) + other.of(status),
    {
        let mut i: usize = 0;
        assert(other.counts@.take(0) =~= seq![]);
        while i < other.counts.len()
            invariant
                i <= other.counts@.len(),
                self.wf(),
                other.wf(),
                forall|status: u16| #[trigger] old(self).of(status) + other.of(status) <= u64::MAX,
                forall|status: u16|
                    #[trigger] self.of(status) == old(self).of(status) + count_in(
                        other.counts@.take(i as int),
                        status,
                    ),
            decreases other.counts@.len() - i,
        {
            let (status, n) = other.counts[i];
            let ghost listed = other.counts@;
            proof {
                let prefix = listed.take(i as int);
                assert forall|j: int| 0 <= j < prefix.len() implies (#[trigger] prefix[j]).0
                    != status by {
                    assert(prefix[j] == listed[j]);
                    assert(listed[i as int].0 == status);
                }
                count_skip(prefix, status, prefix.len() as int);
                assert(prefix.skip(prefix.len() as int) =~= seq![]);
                count_skip(listed, status, i as int);
                assert(listed.skip(i as int)[0] == listed[i as int]);
                assert(listed.take(i + 1) =~= prefix.push((status, n)));
                assert forall|s: u16| #[trigger] count_in(listed.take(i + 1), s) == if s == status {
                    n
                } else {
                    count_in(prefix, s)
                } by {
                    count_push(prefix, status, n, s);
                }
                assert(old(self).of(status) + other.of(status) <= u64::MAX);
            }
            self.add(status, n);
            i = i + 1;
        }
        assert(other.counts@.take(i as int) =~= other.counts@);
    }
}

/// The first of two errors.
pub open spec fn first_error(before: Option<Seq<char>>, next: Option<Seq<char>>) -> Option<Seq<char>> {
    match before {
        Some(error) => Some(error),
        None => next,
    }
}

} // verus!
