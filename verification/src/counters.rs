//! Per-worker pending-request counters.
//!
//! `running[w]` counts in-flight requests on worker `w`: incremented at
//! dispatch, decremented (never below zero) when the response completes.
//! `processed[w]` counts cumulative dispatches and only grows. Increments
//! saturate at the machine limit; the accounting laws below hold whenever
//! the event count stays below it.

use vstd::prelude::*;

verus! {

/// `x + 1`, saturating at the largest counter value.
pub open spec fn sat_add1(x: u64) -> u64 {
    if x < u64::MAX {
        (x + 1) as u64
    } else {
        x
    }
}

/// `x - 1`, saturating at zero.
pub open spec fn sat_sub1(x: u64) -> u64 {
    if x > 0 {
        (x - 1) as u64
    } else {
        0u64
    }
}

pub struct WorkerCounters {
    pub running: Vec<u64>,
    pub processed: Vec<u64>,
}

impl WorkerCounters {
    pub open spec fn wf(self) -> bool {
        self.running@.len() == self.processed@.len()
    }

    pub open spec fn num_workers(self) -> nat {
        self.running@.len()
    }

    /// Fresh counters, all zero.
    pub fn new(num_workers: usize) -> (r: WorkerCounters)
        ensures
            r.wf(),
            r.num_workers() == num_workers,
            forall|w: int|
                0 <= w < num_workers ==> (#[trigger] r.running@[w]) == 0 && r.processed@[w] == 0,
    {
        let running = vec![0u64; num_workers];
        let processed = vec![0u64; num_workers];
        WorkerCounters { running, processed }
    }

    /// Records a dispatch to worker `w`: one more in-flight, one more
    /// processed.
    pub fn record_dispatch(&mut self, w: usize)
        requires
            old(self).wf(),
            w < old(self).num_workers(),
        ensures
            final(self).wf(),
            final(self).running@ == old(self).running@.update(
                w as int,
                sat_add1(old(self).running@[w as int]),
            ),
            final(self).processed@ == old(self).processed@.update(
                w as int,
                sat_add1(old(self).processed@[w as int]),
            ),
    {
        let x = self.running[w];
        self.running[w] = if x < u64::MAX {
            x + 1
        } else {
            x
        };
        let y = self.processed[w];
        self.processed[w] = if y < u64::MAX {
            y + 1
        } else {
            y
        };
    }

    /// Records completion of a request on worker `w`, successful or not;
    /// the in-flight counter never goes below zero and `processed` is
    /// untouched.
    pub fn record_completion(&mut self, w: usize)
        requires
            old(self).wf(),
            w < old(self).num_workers(),
        ensures
            final(self).wf(),
            final(self).running@ == old(self).running@.update(
                w as int,
                sat_sub1(old(self).running@[w as int]),
            ),
            final(self).processed@ == old(self).processed@,
    {
        let x = self.running[w];
        self.running[w] = if x > 0 {
            x - 1
        } else {
            0
        };
    }
}

/// One accounting event: a dispatch to a worker, or the completion of an
/// earlier request on a worker.
pub enum CounterEvent {
    Dispatch { w: int },
    Complete { w: int },
}

pub open spec fn is_dispatch_to(e: CounterEvent, w: int) -> bool {
    e == (CounterEvent::Dispatch { w })
}

pub open spec fn is_complete_to(e: CounterEvent, w: int) -> bool {
    e == (CounterEvent::Complete { w })
}

/// Number of dispatches to worker `w` in the event sequence.
pub open spec fn count_dispatches(evs: Seq<CounterEvent>, w: int) -> int
    decreases evs.len(),
{
    if evs.len() == 0 {
        0
    } else {
        count_dispatches(evs.drop_last(), w) + if is_dispatch_to(evs.last(), w) {
            1int
        } else {
            0int
        }
    }
}

/// Number of completions on worker `w` in the event sequence.
pub open spec fn count_completions(evs: Seq<CounterEvent>, w: int) -> int
    decreases evs.len(),
{
    if evs.len() == 0 {
        0
    } else {
        count_completions(evs.drop_last(), w) + if is_complete_to(evs.last(), w) {
            1int
        } else {
            0int
        }
    }
}

/// The value of `processed[w]` after replaying the events through
/// `record_dispatch` / `record_completion`, starting from zero.
pub open spec fn processed_after(evs: Seq<CounterEvent>, w: int) -> u64
    decreases evs.len(),
{
    if evs.len() == 0 {
        0u64
    } else {
        let prev = processed_after(evs.drop_last(), w);
        if is_dispatch_to(evs.last(), w) {
            sat_add1(prev)
        } else {
            prev
        }
    }
}

/// The value of `running[w]` after replaying the events through
/// `record_dispatch` / `record_completion`, starting from zero.
pub open spec fn running_after(evs: Seq<CounterEvent>, w: int) -> u64
    decreases evs.len(),
{
    if evs.len() == 0 {
        0u64
    } else {
        let prev = running_after(evs.drop_last(), w);
        if is_dispatch_to(evs.last(), w) {
            sat_add1(prev)
        } else if is_complete_to(evs.last(), w) {
            sat_sub1(prev)
        } else {
            prev
        }
    }
}

/// A sequence of events is well formed when no request completes before it
/// was dispatched: in every prefix, each worker has at least as many
/// dispatches as completions.
pub open spec fn events_wf(evs: Seq<CounterEvent>) -> bool {
    forall|n: int, w: int|
        0 <= n <= evs.len() ==> #[trigger] count_completions(evs.take(n), w) <= count_dispatches(
            evs.take(n),
            w,
        )
}

/// Dispatch and completion counts are never negative.
proof fn lemma_counts_nonneg(evs: Seq<CounterEvent>, w: int)
    ensures
        count_dispatches(evs, w) >= 0,
        count_completions(evs, w) >= 0,
    decreases evs.len(),
{
    if evs.len() > 0 {
        lemma_counts_nonneg(evs.drop_last(), w);
    }
}

/// Law: after any sequence of dispatches, `processed[w]` equals the number
/// of dispatches that selected `w`, as long as that number fits the
/// counter.
pub proof fn lemma_processed_counts_dispatches(evs: Seq<CounterEvent>, w: int)
    requires
        count_dispatches(evs, w) < u64::MAX,
    ensures
        processed_after(evs, w) == count_dispatches(evs, w),
    decreases evs.len(),
{
    if evs.len() > 0 {
        lemma_counts_nonneg(evs.drop_last(), w);
        lemma_processed_counts_dispatches(evs.drop_last(), w);
    }
}

/// Law: after any well-formed sequence of dispatches and completions,
/// `running[w]` equals the number of still-in-flight requests on `w`, as
/// long as the dispatch count fits the counter.
pub proof fn lemma_running_is_in_flight(evs: Seq<CounterEvent>, w: int)
    requires
        events_wf(evs),
        count_dispatches(evs, w) < u64::MAX,
    ensures
        running_after(evs, w) == count_dispatches(evs, w) - count_completions(evs, w),
    decreases evs.len(),
{
    if evs.len() > 0 {
        let pre = evs.drop_last();
        assert forall|n: int, w2: int|
            0 <= n <= pre.len() implies #[trigger] count_completions(pre.take(n), w2)
            <= count_dispatches(pre.take(n), w2) by {
            assert(pre.take(n) =~= evs.take(n));
            assert(count_completions(evs.take(n), w2) <= count_dispatches(evs.take(n), w2));
        }
        lemma_counts_nonneg(pre, w);
        lemma_running_is_in_flight(pre, w);
        assert(evs.take(evs.len() as int) =~= evs);
        assert(count_completions(evs.take(evs.len() as int), w) <= count_dispatches(
            evs.take(evs.len() as int),
            w,
        ));
        assert(count_completions(evs, w) <= count_dispatches(evs, w));
    }
}

/// The total in-flight count: the sum of `running[w]` over workers
/// `0 .. n`.
pub open spec fn sum_running(evs: Seq<CounterEvent>, n: int) -> int
    decreases n,
{
    if n <= 0 {
        0
    } else {
        sum_running(evs, n - 1) + running_after(evs, n - 1)
    }
}

/// Number of dispatches to any worker in `0 .. n`.
pub open spec fn count_dispatches_upto(evs: Seq<CounterEvent>, n: int) -> int
    decreases n,
{
    if n <= 0 {
        0
    } else {
        count_dispatches_upto(evs, n - 1) + count_dispatches(evs, n - 1)
    }
}

/// Number of completions on any worker in `0 .. n`.
pub open spec fn count_completions_upto(evs: Seq<CounterEvent>, n: int) -> int
    decreases n,
{
    if n <= 0 {
        0
    } else {
        count_completions_upto(evs, n - 1) + count_completions(evs, n - 1)
    }
}

/// Law: after any well-formed sequence of dispatches and completions on
/// workers `0 .. n`, the in-flight counters sum to the number of
/// dispatched requests whose response has not yet completed.
pub proof fn lemma_running_sum_balances(evs: Seq<CounterEvent>, n: int)
    requires
        events_wf(evs),
        forall|w: int| 0 <= w < n ==> #[trigger] count_dispatches(evs, w) < u64::MAX,
    ensures
        sum_running(evs, n) == count_dispatches_upto(evs, n) - count_completions_upto(evs, n),
    decreases n,
{
    if n > 0 {
        lemma_running_sum_balances(evs, n - 1);
        lemma_running_is_in_flight(evs, n - 1);
    }
}

} // verus!
