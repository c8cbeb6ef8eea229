//! The pipeline neither stops short nor runs forever.
//!
//! Of the transition system of the pipeline this module proves that every
//! state a run can reach is either over, with everything delivered and
//! both channels drained, or has an event that changes it; and that every
//! event that changes a state lowers a measure that cannot fall below
//! zero. So whoever keeps taking steps that change the state ends, after
//! a bounded number of them, in the state that is over.

use crate::entry::RawEntryView;
use crate::parse::parse_each;
use crate::pipeline::is_rearrangement;
use crate::system::{
    is_quiescent, lemma_every_run_delivers, run, start, system_step, Event, SystemView,
};
use crate::worker::{give_step, take_step, work_step, WorkerView};
use vstd::prelude::*;

verus! {

/// One for a worker that has not finished, zero for one that has.
pub open spec fn unfinished_one(w: WorkerView) -> nat {
    if w is Finished {
        0
    } else {
        1
    }
}

/// The number of workers of a pool that have not finished.
pub open spec fn unfinished(workers: Seq<WorkerView>) -> nat
    decreases workers.len(),
{
    if workers.len() == 0 {
        0
    } else {
        unfinished(workers.drop_last()) + unfinished_one(workers.last())
    }
}

/// How far a worker is from being finished, in steps; the steps that the
/// outcome it answers for has yet to take are counted with it.
pub open spec fn worker_weight(w: WorkerView) -> nat {
    match w {
        WorkerView::Holding(_) => 6,
        WorkerView::Ready(_) => 5,
        WorkerView::Idle => 2,
        WorkerView::Closing => 1,
        WorkerView::Finished => 0,
    }
}

/// The weights of the workers of a pool, added up.
pub open spec fn pool_weight(workers: Seq<WorkerView>) -> nat
    decreases workers.len(),
{
    if workers.len() == 0 {
        0
    } else {
        pool_weight(workers.drop_last()) + worker_weight(workers.last())
    }
}

/// A bound on the number of state-changing events that a state has before
/// it: six for each block that the scanner holds, five for each that waits
/// in the raw-entry channel, one for each outcome that waits in the outcome
/// channel, the weights of the workers, and one for the scanner's release
/// of the raw-entry channel.
pub open spec fn steps_left(s: SystemView) -> nat {
    6 * s.unsent.len() + 5 * s.raw.queue.len() + s.parsed.queue.len() + pool_weight(s.workers)
        + s.raw.senders
}

/// What holds of every state that a run reaches: there is a worker and
/// room in both channels; the raw-entry channel has at most its one
/// sender, who stays until the scanner has sent every block; the outcome
/// channel has one sender for each worker that has not finished; and a
/// worker closes only once the raw-entry channel is drained.
pub open spec fn is_sound(s: SystemView) -> bool {
    &&& s.workers.len() >= 1
    &&& s.raw.capacity >= 1
    &&& s.parsed.capacity >= 1
    &&& s.raw.senders <= 1
    &&& (s.raw.senders == 0 ==> s.unsent.len() == 0)
    &&& s.parsed.senders == unfinished(s.workers)
    &&& forall|i: int|
        0 <= i < s.workers.len() && ((#[trigger] s.workers[i]) is Closing || s.workers[i]
            is Finished) ==> s.raw.is_drained()
}

/// The run is over: the scanner has sent every block and released the
/// raw-entry channel, every worker has finished, and the outcome channel is
/// drained, so that the sink ends the run.
pub open spec fn is_over(s: SystemView) -> bool {
    &&& s.unsent.len() == 0
    &&& s.raw.is_drained()
    &&& s.parsed.is_drained()
    &&& forall|i: int| 0 <= i < s.workers.len() ==> (#[trigger] s.workers[i]) is Finished
}

/// Replacing one worker of a pool replaces its part in the count of the
/// unfinished and in the weight of the pool.
pub proof fn lemma_pool_counts_update(workers: Seq<WorkerView>, i: int, w: WorkerView)
    requires
        0 <= i < workers.len(),
    ensures
        unfinished(workers.update(i, w)) + unfinished_one(workers[i]) == unfinished(workers)
            + unfinished_one(w),
        pool_weight(workers.update(i, w)) + worker_weight(workers[i]) == pool_weight(workers)
            + worker_weight(w),
    decreases workers.len(),
{
    let rest = workers.drop_last();
    let updated = workers.update(i, w);
    if i == workers.len() - 1 {
        assert(updated.drop_last() =~= rest);
        assert(updated.last() == w);
    } else {
        lemma_pool_counts_update(rest, i, w);
        assert(updated.drop_last() =~= rest.update(i, w));
        assert(updated.last() == workers.last());
        assert(rest[i] == workers[i]);
    }
}

/// A pool of idle workers has as many unfinished workers as it has workers.
pub proof fn lemma_idle_pool(n: nat)
    ensures
        unfinished(Seq::new(n, |i: int| WorkerView::Idle)) == n,
        pool_weight(Seq::new(n, |i: int| WorkerView::Idle)) == 2 * n,
    decreases n,
{
    let pool = Seq::new(n, |i: int| WorkerView::Idle);
    if n > 0 {
        lemma_idle_pool((n - 1) as nat);
        assert(pool.drop_last() =~= Seq::new((n - 1) as nat, |i: int| WorkerView::Idle));
    }
}

/// A pool whose workers have all finished has no unfinished worker.
pub proof fn lemma_finished_pool(workers: Seq<WorkerView>)
    requires
        forall|i: int| 0 <= i < workers.len() ==> (#[trigger] workers[i]) is Finished,
    ensures
        unfinished(workers) == 0,
    decreases workers.len(),
{
    if workers.len() > 0 {
        let rest = workers.drop_last();
        assert forall|i: int| 0 <= i < rest.len() implies (#[trigger] rest[i]) is Finished by {
            assert(rest[i] == workers[i]);
        }
        lemma_finished_pool(rest);
        assert(workers[workers.len() - 1] is Finished);
    }
}

/// The start of a run with at least one worker and room in both channels
/// is sound.
pub proof fn lemma_start_is_sound(
    blocks: Seq<RawEntryView>,
    workers: nat,
    raw_capacity: nat,
    parsed_capacity: nat,
)
    requires
        workers >= 1,
        raw_capacity >= 1,
        parsed_capacity >= 1,
    ensures
        is_sound(start(blocks, workers, raw_capacity, parsed_capacity)),
        steps_left(start(blocks, workers, raw_capacity, parsed_capacity)) == 6 * blocks.len() + 2
            * workers + 1,
{
    lemma_idle_pool(workers);
}

/// No event leads from a sound state to one that is not.
pub proof fn lemma_step_keeps_sound(s: SystemView, e: Event)
    requires
        is_sound(s),
    ensures
        is_sound(system_step(s, e)),
{
    let next = system_step(s, e);
    match e {
        Event::Send => {
            assert forall|i: int|
                0 <= i < next.workers.len() && ((#[trigger] next.workers[i]) is Closing
                    || next.workers[i] is Finished) implies next.raw.is_drained() by {
                assert(s.workers[i] is Closing || s.workers[i] is Finished);
            }
        },
        Event::Take(i) => {
            if 0 <= i < s.workers.len() {
                let taken = take_step(s.workers[i], s.raw.queue, s.raw.senders);
                lemma_pool_counts_update(s.workers, i, taken.0);
                assert forall|k: int|
                    0 <= k < next.workers.len() && ((#[trigger] next.workers[k]) is Closing
                        || next.workers[k] is Finished) implies next.raw.is_drained() by {
                    if k != i {
                        assert(s.workers[k] is Closing || s.workers[k] is Finished);
                    }
                }
            }
        },
        Event::Work(i) => {
            if 0 <= i < s.workers.len() {
                lemma_pool_counts_update(s.workers, i, work_step(s.workers[i]));
                assert forall|k: int|
                    0 <= k < next.workers.len() && ((#[trigger] next.workers[k]) is Closing
                        || next.workers[k] is Finished) implies next.raw.is_drained() by {
                    assert(s.workers[k] is Closing || s.workers[k] is Finished);
                }
            }
        },
        Event::Give(i) => {
            if 0 <= i < s.workers.len() {
                let given = give_step(
                    s.workers[i],
                    s.parsed.queue,
                    s.parsed.capacity,
                    s.parsed.senders,
                );
                lemma_pool_counts_update(s.workers, i, given.0);
                assert forall|k: int|
                    0 <= k < next.workers.len() && ((#[trigger] next.workers[k]) is Closing
                        || next.workers[k] is Finished) implies next.raw.is_drained() by {
                    assert(s.workers[k] is Closing || s.workers[k] is Finished);
                }
            }
        },
        Event::Receive => {},
    }
}

/// Every state that a run reaches from a sound state is sound.
pub proof fn lemma_run_keeps_sound(s: SystemView, events: Seq<Event>)
    requires
        is_sound(s),
    ensures
        is_sound(run(s, events)),
    decreases events.len(),
{
    if events.len() > 0 {
        lemma_run_keeps_sound(s, events.drop_last());
        lemma_step_keeps_sound(run(s, events.drop_last()), events.last());
    }
}

/// The pipeline never stops short: a sound state that is not over has an
/// event that changes it.
pub proof fn lemma_no_deadlock(s: SystemView)
    requires
        is_sound(s),
    ensures
        is_over(s) || exists|e: Event| #[trigger] system_step(s, e) != s,
{
    if exists|i: int| 0 <= i < s.workers.len() && (#[trigger] s.workers[i]) is Holding {
        let i = choose|i: int| 0 <= i < s.workers.len() && (#[trigger] s.workers[i]) is Holding;
        lemma_changes_worker(s, Event::Work(i), i);
    } else if exists|i: int| 0 <= i < s.workers.len() && (#[trigger] s.workers[i]) is Closing {
        let i = choose|i: int| 0 <= i < s.workers.len() && (#[trigger] s.workers[i]) is Closing;
        lemma_changes_worker(s, Event::Give(i), i);
    } else if s.parsed.queue.len() > 0 {
        assert(system_step(s, Event::Receive).arrived.len() != s.arrived.len());
    } else if exists|i: int| 0 <= i < s.workers.len() && (#[trigger] s.workers[i]) is Ready {
        let i = choose|i: int| 0 <= i < s.workers.len() && (#[trigger] s.workers[i]) is Ready;
        lemma_pool_counts_update(s.workers, i, WorkerView::Finished);
        lemma_changes_worker(s, Event::Give(i), i);
    } else if exists|i: int| 0 <= i < s.workers.len() && (#[trigger] s.workers[i]) is Idle {
        let i = choose|i: int| 0 <= i < s.workers.len() && (#[trigger] s.workers[i]) is Idle;
        if s.raw.queue.len() > 0 || s.raw.senders == 0 {
            lemma_changes_worker(s, Event::Take(i), i);
        } else if s.unsent.len() > 0 {
            assert(system_step(s, Event::Send).unsent.len() != s.unsent.len());
        } else {
            assert(system_step(s, Event::Send).raw.senders != s.raw.senders);
        }
    } else {
        assert forall|i: int| 0 <= i < s.workers.len() implies (#[trigger] s.workers[i])
            is Finished by {
            let w = s.workers[i];
            assert(!(w is Holding) && !(w is Closing) && !(w is Ready) && !(w is Idle));
        }
        lemma_finished_pool(s.workers);
        assert(s.workers[0] is Finished);
        assert(is_over(s));
    }
}

/// An event that gives a worker another state changes the state of the
/// pipeline.
pub proof fn lemma_changes_worker(s: SystemView, e: Event, i: int)
    requires
        0 <= i < s.workers.len(),
        system_step(s, e).workers.len() == s.workers.len(),
        system_step(s, e).workers[i] != s.workers[i],
    ensures
        system_step(s, e) != s,
{
}

/// The pipeline never runs forever: an event that changes a state lowers
/// the bound on the events that are left.
pub proof fn lemma_step_lowers_bound(s: SystemView, e: Event)
    ensures
        system_step(s, e) == s || steps_left(system_step(s, e)) < steps_left(s),
{
    let next = system_step(s, e);
    match e {
        Event::Send => {},
        Event::Take(i) => {
            if 0 <= i < s.workers.len() {
                let taken = take_step(s.workers[i], s.raw.queue, s.raw.senders);
                lemma_pool_counts_update(s.workers, i, taken.0);
                if taken.0 == s.workers[i] {
                    assert(next.workers =~= s.workers);
                }
            }
        },
        Event::Work(i) => {
            if 0 <= i < s.workers.len() {
                let worked = work_step(s.workers[i]);
                lemma_pool_counts_update(s.workers, i, worked);
                if worked == s.workers[i] {
                    assert(next.workers =~= s.workers);
                }
            }
        },
        Event::Give(i) => {
            if 0 <= i < s.workers.len() {
                let given = give_step(
                    s.workers[i],
                    s.parsed.queue,
                    s.parsed.capacity,
                    s.parsed.senders,
                );
                lemma_pool_counts_update(s.workers, i, given.0);
                if given.0 == s.workers[i] {
                    assert(next.workers =~= s.workers);
                }
            }
        },
        Event::Receive => {},
    }
}

/// The number of events of a run that change the state.
pub open spec fn changes(s: SystemView, events: Seq<Event>) -> nat
    decreases events.len(),
{
    if events.len() == 0 {
        0
    } else {
        changes(s, events.drop_last()) + if run(s, events) != run(s, events.drop_last()) {
            1nat
        } else {
            0nat
        }
    }
}

/// No run changes the state more often than the bound of its first state
/// allows, and what is left of the bound after the run is what the run has
/// not used.
pub proof fn lemma_run_is_bounded(s: SystemView, events: Seq<Event>)
    ensures
        changes(s, events) + steps_left(run(s, events)) <= steps_left(s),
    decreases events.len(),
{
    if events.len() > 0 {
        lemma_run_is_bounded(s, events.drop_last());
        lemma_step_lowers_bound(run(s, events.drop_last()), events.last());
    }
}

/// The pipeline ends cleanly: a run from the start of a dump changes the
/// state at most six times for each block, twice for each worker and once
/// more; every state on its way is over or can be changed; and a state
/// that is over has delivered an outcome for every block.
pub proof fn lemma_pipeline_terminates(
    blocks: Seq<RawEntryView>,
    workers: nat,
    raw_capacity: nat,
    parsed_capacity: nat,
    events: Seq<Event>,
)
    requires
        workers >= 1,
        raw_capacity >= 1,
        parsed_capacity >= 1,
    ensures
        changes(start(blocks, workers, raw_capacity, parsed_capacity), events) <= 6 * blocks.len()
            + 2 * workers + 1,
        is_over(run(start(blocks, workers, raw_capacity, parsed_capacity), events)) || exists|
            e: Event,
        | #[trigger]
            system_step(run(start(blocks, workers, raw_capacity, parsed_capacity), events), e)
                != run(start(blocks, workers, raw_capacity, parsed_capacity), events),
        is_over(run(start(blocks, workers, raw_capacity, parsed_capacity), events))
            ==> is_rearrangement(
            run(start(blocks, workers, raw_capacity, parsed_capacity), events).arrived,
            parse_each(blocks),
        ),
{
    let first = start(blocks, workers, raw_capacity, parsed_capacity);
    let last = run(first, events);
    lemma_start_is_sound(blocks, workers, raw_capacity, parsed_capacity);
    lemma_run_is_bounded(first, events);
    lemma_run_keeps_sound(first, events);
    lemma_no_deadlock(last);
    if is_over(last) {
        assert(is_quiescent(last));
        lemma_every_run_delivers(blocks, workers, raw_capacity, parsed_capacity, events);
    }
}

} // verus!
