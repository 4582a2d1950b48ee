//! Epoch accounting of the data loaders: how many batches an epoch has, and when a run is over.

use crate::numeric::{ceil_div, ceil_div_of, min_of};
use crate::rollout::{at_least_one, max_one};
use vstd::prelude::*;

verus! {

/// How many batches cover `len` records; one where batches are empty or there is nothing to cover.
pub open spec fn epoch_steps(len: int, batch_size: int) -> int {
    if batch_size == 0 {
        1
    } else {
        at_least_one(ceil_div_of(len, batch_size))
    }
}

/// How many batches cover `len` records.
pub fn steps_per_epoch(len: usize, batch_size: usize) -> (steps: usize)
    ensures
        steps == epoch_steps(len as int, batch_size as int),
        steps >= 1,
{
    if batch_size == 0 {
        return 1;
    }
    max_one(ceil_div(len, batch_size))
}

/// The batches of an epoch cover every record, and none of them is needless.
pub proof fn law_epoch_covers_the_records(len: int, batch_size: int)
    requires
        len >= 0,
        batch_size > 0,
    ensures
        epoch_steps(len, batch_size) * batch_size >= len,
        len > 0 ==> (epoch_steps(len, batch_size) - 1) * batch_size < len,
{
    crate::numeric::law_ceil_div_is_tight(len, batch_size);
    let c = ceil_div_of(len, batch_size);
    assert(c <= 0 ==> c * batch_size <= 0) by (nonlinear_arith)
        requires
            batch_size > 0,
    ;
    assert(1 * batch_size == batch_size);
    assert(c == 1 ==> (c - 1) * batch_size == 0) by (nonlinear_arith);
}

/// The length of an epoch and of the whole run, in batches.
#[derive(Clone, Copy, Debug, PartialEq, Eq, Structural)]
pub struct LoaderSchedule {
    pub batch_size: usize,
    pub steps_per_epoch: usize,
    pub total_steps: Option<usize>,
}

/// How many batches the next epoch has once `consumed` batches of the run are used up.
pub open spec fn remaining_epoch_steps(schedule: LoaderSchedule, consumed: int) -> int {
    match schedule.total_steps {
        Some(limit) => if consumed >= limit {
            0
        } else {
            vstd::math::min(limit - consumed, schedule.steps_per_epoch as int)
        },
        None => schedule.steps_per_epoch as int,
    }
}

impl LoaderSchedule {
    /// Every epoch has a batch, and a run without limit has no limit of zero.
    pub open spec fn wf(self) -> bool {
        self.steps_per_epoch >= 1 && self.total_steps != Some(0usize)
    }

    /// A schedule over `dataset_len` records. The epoch length is taken from the dataset where it is
    /// not given, and a limit of zero means no limit.
    pub fn new(
        dataset_len: usize,
        batch_size: usize,
        steps_per_epoch: usize,
        total_steps: Option<usize>,
    ) -> (schedule: Self)
        ensures
            schedule.wf(),
            schedule.batch_size == batch_size,
            schedule.steps_per_epoch == (if steps_per_epoch == 0 {
                epoch_steps(dataset_len as int, batch_size as int)
            } else {
                steps_per_epoch as int
            }),
            schedule.total_steps == (match total_steps {
                Some(limit) => if limit > 0 {
                    Some(limit)
                } else {
                    None
                },
                None => None,
            }),
    {
        let steps: usize = if steps_per_epoch == 0 {
            self::steps_per_epoch(dataset_len, batch_size)
        } else {
            steps_per_epoch
        };
        let total_steps = match total_steps {
            Some(limit) => if limit > 0 {
                Some(limit)
            } else {
                None
            },
            None => None,
        };
        Self { batch_size, steps_per_epoch: max_one(steps), total_steps }
    }

    /// How many batches the next epoch has once `consumed` batches of the run are used up.
    pub fn epoch_len(&self, consumed: usize) -> (steps: usize)
        ensures
            steps == remaining_epoch_steps(*self, consumed as int),
    {
        match self.total_steps {
            Some(limit) => if consumed >= limit {
                0
            } else {
                min_of(limit - consumed, self.steps_per_epoch)
            },
            None => self.steps_per_epoch,
        }
    }

    /// How many records an epoch hands out.
    pub fn num_items(&self) -> (items: usize)
        requires
            self.steps_per_epoch * self.batch_size <= usize::MAX,
        ensures
            items == self.steps_per_epoch * self.batch_size,
    {
        self.steps_per_epoch * self.batch_size
    }

    /// The schedule of the epoch's batches `start..end`, of which at least one remains.
    pub fn slice(&self, start: usize, end: usize) -> (part: Self)
        ensures
            part.batch_size == self.batch_size,
            part.total_steps == self.total_steps,
            part.steps_per_epoch == ({
                let stop = vstd::math::min(end as int, self.steps_per_epoch as int);
                at_least_one(stop - vstd::math::min(start as int, stop))
            }),
            self.wf() ==> part.wf(),
    {
        let stop: usize = min_of(end, self.steps_per_epoch);
        let first: usize = min_of(start, stop);
        Self {
            batch_size: self.batch_size,
            steps_per_epoch: max_one(stop - first),
            total_steps: self.total_steps,
        }
    }

    /// Starts an epoch after `consumed` batches of the run.
    pub fn iter(&self, consumed: usize) -> (epoch: EpochProgress)
        ensures
            epoch == epoch_from(*self, consumed as int),
    {
        EpochProgress {
            batch_size: self.batch_size,
            steps_total: self.epoch_len(consumed),
            step: 0,
            total_steps: self.total_steps,
        }
    }
}

/// How far an epoch has come.
#[derive(Clone, Copy, Debug, PartialEq, Eq, Structural)]
pub struct EpochProgress {
    pub batch_size: usize,
    pub steps_total: usize,
    pub step: usize,
    pub total_steps: Option<usize>,
}

/// Whether the next request is answered with a batch: the epoch must not be over, and the run's
/// limit not be used up.
pub open spec fn produces(epoch: EpochProgress, consumed: int) -> bool {
    &&& epoch.step < epoch.steps_total
    &&& epoch.total_steps matches Some(limit) ==> consumed < limit
}

/// The run's batch count after the next request.
pub open spec fn consumed_after(epoch: EpochProgress, consumed: int) -> int {
    if epoch.step < epoch.steps_total && epoch.total_steps is Some {
        consumed + 1
    } else {
        consumed
    }
}

impl EpochProgress {
    /// Asks for the next batch. `consumed` counts the requests of all epochs of a limited run.
    pub fn next(&mut self, consumed: &mut usize) -> (produced: bool)
        requires
            *old(consumed) < usize::MAX,
        ensures
            produced == produces(*old(self), *old(consumed) as int),
            *final(consumed) == consumed_after(*old(self), *old(consumed) as int),
            final(self).step == (if old(self).step < old(self).steps_total {
                old(self).step + 1
            } else {
                old(self).step as int
            }),
            final(self).steps_total == old(self).steps_total,
            final(self).batch_size == old(self).batch_size,
            final(self).total_steps == old(self).total_steps,
    {
        if self.step >= self.steps_total {
            return false;
        }
        self.step = self.step + 1;
        match self.total_steps {
            Some(limit) => {
                let previous: usize = *consumed;
                *consumed = previous + 1;
                previous < limit
            },
            None => true,
        }
    }

    /// How many records the epoch has handed out, and how many it will.
    pub fn progress(&self) -> (r: (usize, usize))
        requires
            self.step * self.batch_size <= usize::MAX,
            self.steps_total * self.batch_size <= usize::MAX,
        ensures
            r.0 == self.step * self.batch_size,
            r.1 == self.steps_total * self.batch_size,
    {
        (self.step * self.batch_size, self.steps_total * self.batch_size)
    }
}

/// The epoch and the run's batch count after `n` requests.
pub open spec fn after_requests(epoch: EpochProgress, consumed: int, n: nat) -> (
    EpochProgress,
    int,
)
    decreases n,
{
    if n == 0 {
        (epoch, consumed)
    } else {
        let (e, c) = after_requests(epoch, consumed, (n - 1) as nat);
        let next = if e.step < e.steps_total {
            EpochProgress { step: (e.step + 1) as usize, ..e }
        } else {
            e
        };
        (next, consumed_after(e, c))
    }
}

/// An epoch that was started by the schedule answers exactly its `steps_total` first requests with
/// a batch, and a limited run never hands out more batches than its limit.
pub proof fn law_epoch_hands_out_its_batches(schedule: LoaderSchedule, consumed: int, n: nat)
    requires
        schedule.wf(),
        consumed >= 0,
    ensures
        ({
            let steps = remaining_epoch_steps(schedule, consumed);
            let (epoch, count) = after_requests(epoch_from(schedule, consumed), consumed, n);
            &&& epoch.steps_total == steps
            &&& epoch.total_steps == schedule.total_steps
            &&& epoch.step == vstd::math::min(n as int, steps)
            &&& schedule.total_steps is Some ==> count == consumed + epoch.step
            &&& produces(epoch, count) <==> n < steps
            &&& schedule.total_steps matches Some(limit) ==> (consumed <= limit ==> count <= limit)
        }),
    decreases n,
{
    if n > 0 {
        law_epoch_hands_out_its_batches(schedule, consumed, (n - 1) as nat);
    }
}

/// An epoch that the schedule starts after `consumed` batches of the run.
pub open spec fn epoch_from(schedule: LoaderSchedule, consumed: int) -> EpochProgress {
    EpochProgress {
        batch_size: schedule.batch_size,
        steps_total: remaining_epoch_steps(schedule, consumed) as usize,
        step: 0,
        total_steps: schedule.total_steps,
    }
}

/// The run's batch count after some epochs, each asked for as many batches as given.
pub open spec fn run_after(schedule: LoaderSchedule, requests: Seq<nat>) -> int
    decreases requests.len(),
{
    if requests.len() == 0 {
        0
    } else {
        let consumed = run_after(schedule, requests.drop_last());
        after_requests(epoch_from(schedule, consumed), consumed, requests.last()).1
    }
}

/// A limited run whose epochs are asked to their end hands out its limit, no more and no less: epoch
/// after epoch a full one, then what is left, then nothing.
pub proof fn law_limited_run_hands_out_its_limit(
    schedule: LoaderSchedule,
    limit: usize,
    requests: Seq<nat>,
)
    requires
        schedule.wf(),
        schedule.total_steps == Some(limit),
        forall|k: int| 0 <= k < requests.len() ==> (#[trigger] requests[k])
            >= schedule.steps_per_epoch,
    ensures
        ({
            let asked = requests.len() * schedule.steps_per_epoch;
            let left = vstd::math::max(limit - asked, 0);
            &&& run_after(schedule, requests) == vstd::math::min(limit as int, asked)
            &&& remaining_epoch_steps(schedule, run_after(schedule, requests)) == vstd::math::min(
                schedule.steps_per_epoch as int,
                left,
            )
            &&& asked >= limit ==> run_after(schedule, requests) == limit
        }),
    decreases requests.len(),
{
    let steps = schedule.steps_per_epoch as int;
    let n = requests.len();
    assert(n * steps >= 0) by (nonlinear_arith)
        requires
            n >= 0,
            steps >= 0,
    ;
    if n > 0 {
        let front = requests.drop_last();
        assert forall|k: int| 0 <= k < front.len() implies (#[trigger] front[k]) >= steps by {
            assert(front[k] == requests[k]);
        }
        law_limited_run_hands_out_its_limit(schedule, limit, front);
        let consumed = run_after(schedule, front);
        assert((n - 1) * steps + steps == n * steps && (n - 1) * steps >= 0) by (nonlinear_arith)
            requires
                n >= 1,
                steps >= 0,
        ;
        law_epoch_hands_out_its_batches(schedule, consumed, requests.last());
        assert(requests.last() == requests[n - 1]);
    } else {
        assert(0 * steps == 0);
    }
}

/// A run without a limit counts no batches, and each of its epochs is a full one.
pub proof fn law_unlimited_runs_have_full_epochs(schedule: LoaderSchedule, consumed: int, n: nat)
    requires
        schedule.total_steps is None,
    ensures
        remaining_epoch_steps(schedule, consumed) == schedule.steps_per_epoch,
        after_requests(epoch_from(schedule, consumed), consumed, n).1 == consumed,
        after_requests(epoch_from(schedule, consumed), consumed, n).0.total_steps is None,
    decreases n,
{
    if n > 0 {
        law_unlimited_runs_have_full_epochs(schedule, consumed, (n - 1) as nat);
    }
}

/// An empty request changes nothing of the run: once an epoch is over, asking again neither hands out
/// a batch nor counts one.
pub proof fn law_finished_epochs_hand_out_nothing(epoch: EpochProgress, consumed: int)
    requires
        epoch.step >= epoch.steps_total,
    ensures
        !produces(epoch, consumed),
        consumed_after(epoch, consumed) == consumed,
        after_requests(epoch, consumed, 1) == (epoch, consumed),
{
    reveal_with_fuel(after_requests, 2);
}

} // verus!
