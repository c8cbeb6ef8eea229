//! The concurrent pipeline as a transition system, and what holds of every
//! run of it.
//!
//! The scanner offers its blocks in file order to the raw-entry channel;
//! each worker of the pool takes, parses and gives; the sink receives. An
//! event is one such step by one party, and a run is any sequence of
//! events: every interleaving of every pool size is a run. The steps are
//! those that the channel and the worker are verified against.

use crate::channel::{after_receive, after_release, after_send, ChannelView};
use crate::entry::RawEntryView;
use crate::parse::{parse, parse_each};
use crate::pipeline::is_rearrangement;
use crate::record::ParseOutcomeView;
use crate::worker::{
    give_step, held_by, lemma_give_conserves, lemma_take_conserves, take_step, work_step,
    WorkerView,
};
use vstd::multiset::Multiset;
use vstd::prelude::*;

verus! {

/// The pipeline at one moment.
pub struct SystemView {
    /// The blocks that the scanner has yet to send, in file order.
    pub unsent: Seq<RawEntryView>,
    /// The raw-entry channel.
    pub raw: ChannelView<RawEntryView>,
    /// The workers of the pool.
    pub workers: Seq<WorkerView>,
    /// The outcome channel.
    pub parsed: ChannelView<ParseOutcomeView>,
    /// The outcomes that the sink has received, in the order of arrival.
    pub arrived: Seq<ParseOutcomeView>,
}

/// One step of one party.
pub enum Event {
    /// The scanner offers its next block, or releases the raw-entry channel
    /// when it has none left.
    Send,
    /// A worker tries to take a block.
    Take(int),
    /// A worker parses what it holds.
    Work(int),
    /// A worker tries to give its outcome, or releases the outcome channel.
    Give(int),
    /// The sink tries to receive an outcome.
    Receive,
}

/// The pipeline before anything has happened: the scanner holds all blocks
/// of the dump, every worker is idle, and both channels are empty. The
/// raw-entry channel has one sender, the outcome channel one for each
/// worker.
pub open spec fn start(
    blocks: Seq<RawEntryView>,
    workers: nat,
    raw_capacity: nat,
    parsed_capacity: nat,
) -> SystemView {
    SystemView {
        unsent: blocks,
        raw: ChannelView { queue: Seq::empty(), capacity: raw_capacity, senders: 1 },
        workers: Seq::new(workers, |i: int| WorkerView::Idle),
        parsed: ChannelView { queue: Seq::empty(), capacity: parsed_capacity, senders: workers },
        arrived: Seq::empty(),
    }
}

/// The pipeline after an event. An event that names no worker of the pool
/// changes nothing.
pub open spec fn system_step(s: SystemView, e: Event) -> SystemView {
    match e {
        Event::Send => if s.unsent.len() == 0 {
            SystemView { raw: after_release(s.raw), ..s }
        } else if s.raw.is_closed() || s.raw.is_full() {
            s
        } else {
            SystemView {
                unsent: s.unsent.drop_first(),
                raw: after_send(s.raw, s.unsent[0]),
                ..s
            }
        },
        Event::Take(i) => if 0 <= i < s.workers.len() {
            let taken = take_step(s.workers[i], s.raw.queue, s.raw.senders);
            SystemView {
                workers: s.workers.update(i, taken.0),
                raw: ChannelView { queue: taken.1, ..s.raw },
                ..s
            }
        } else {
            s
        },
        Event::Work(i) => if 0 <= i < s.workers.len() {
            SystemView { workers: s.workers.update(i, work_step(s.workers[i])), ..s }
        } else {
            s
        },
        Event::Give(i) => if 0 <= i < s.workers.len() {
            let given = give_step(
                s.workers[i],
                s.parsed.queue,
                s.parsed.capacity,
                s.parsed.senders,
            );
            SystemView {
                workers: s.workers.update(i, given.0),
                parsed: ChannelView { queue: given.1, senders: given.2, ..s.parsed },
                ..s
            }
        } else {
            s
        },
        Event::Receive => if s.parsed.queue.len() > 0 {
            SystemView {
                arrived: s.arrived.push(s.parsed.queue[0]),
                parsed: after_receive(s.parsed),
                ..s
            }
        } else {
            s
        },
    }
}

/// The pipeline after a run of events.
pub open spec fn run(s: SystemView, events: Seq<Event>) -> SystemView
    decreases events.len(),
{
    if events.len() == 0 {
        s
    } else {
        system_step(run(s, events.drop_last()), events.last())
    }
}

/// The outcomes that the workers of a pool answer for.
pub open spec fn pool_held(workers: Seq<WorkerView>) -> Multiset<ParseOutcomeView>
    decreases workers.len(),
{
    if workers.len() == 0 {
        Multiset::empty()
    } else {
        pool_held(workers.drop_last()).add(held_by(workers.last()))
    }
}

/// The outcomes that are accounted for: those that have arrived, those that
/// wait in the outcome channel, those that the workers answer for, and
/// those of the blocks that wait in the raw-entry channel or with the
/// scanner.
pub open spec fn accounted(s: SystemView) -> Multiset<ParseOutcomeView> {
    s.arrived.to_multiset().add(s.parsed.queue.to_multiset()).add(pool_held(s.workers)).add(
        parse_each(s.raw.queue).to_multiset(),
    ).add(parse_each(s.unsent).to_multiset())
}

/// Nothing is under way: the scanner has sent everything, both channels are
/// empty, and no worker holds a block or an outcome.
pub open spec fn is_quiescent(s: SystemView) -> bool {
    &&& s.unsent.len() == 0
    &&& s.raw.queue.len() == 0
    &&& s.parsed.queue.len() == 0
    &&& forall|i: int|
        0 <= i < s.workers.len() ==> !((#[trigger] s.workers[i]) is Holding) && !(s.workers[i]
            is Ready)
}

/// The outcomes of the pipeline in a row: those that have arrived, those
/// that wait in the outcome channel, that of what the worker holds, and
/// those of the blocks that wait, for a pool of one worker.
pub open spec fn in_a_row(s: SystemView) -> Seq<ParseOutcomeView> {
    s.arrived + s.parsed.queue + held_row(s.workers[0]) + parse_each(s.raw.queue) + parse_each(
        s.unsent,
    )
}

/// Adding to a multiset in either order gives the same multiset.
pub proof fn lemma_add_swaps<A>(a: Multiset<A>, b: Multiset<A>, c: Multiset<A>)
    ensures
        a.add(b).add(c) == a.add(c).add(b),
{
    assert(a.add(b).add(c) =~= a.add(c).add(b));
}

/// Replacing one worker of a pool replaces what it answers for.
pub proof fn lemma_pool_update(workers: Seq<WorkerView>, i: int, w: WorkerView)
    requires
        0 <= i < workers.len(),
    ensures
        pool_held(workers.update(i, w)).add(held_by(workers[i])) == pool_held(workers).add(
            held_by(w),
        ),
    decreases workers.len(),
{
    let rest = workers.drop_last();
    let updated = workers.update(i, w);
    let old_one = held_by(workers[i]);
    let new_one = held_by(w);
    let last_one = held_by(workers.last());
    if i == workers.len() - 1 {
        assert(updated.drop_last() =~= rest);
        assert(updated.last() == w);
        assert(pool_held(updated) == pool_held(rest).add(new_one));
        assert(pool_held(workers) == pool_held(rest).add(old_one));
        lemma_add_swaps(pool_held(rest), new_one, old_one);
    } else {
        lemma_pool_update(rest, i, w);
        assert(updated.drop_last() =~= rest.update(i, w));
        assert(updated.last() == workers.last());
        assert(rest[i] == workers[i]);
        let x = pool_held(rest.update(i, w));
        let y = pool_held(rest);
        assert(x.add(old_one) == y.add(new_one));
        assert(pool_held(updated) == x.add(last_one));
        assert(pool_held(workers) == y.add(last_one));
        lemma_add_swaps(x, last_one, old_one);
        lemma_add_swaps(y, last_one, new_one);
    }
}

/// A pool in which no worker holds a block or an outcome answers for
/// nothing.
pub proof fn lemma_pool_at_rest(workers: Seq<WorkerView>)
    requires
        forall|i: int|
            0 <= i < workers.len() ==> !((#[trigger] workers[i]) is Holding) && !(workers[i]
                is Ready),
    ensures
        pool_held(workers) == Multiset::<ParseOutcomeView>::empty(),
    decreases workers.len(),
{
    if workers.len() > 0 {
        let rest = workers.drop_last();
        assert forall|i: int| 0 <= i < rest.len() implies !((#[trigger] rest[i]) is Holding) && !(
        rest[i] is Ready) by {
            assert(rest[i] == workers[i]);
        }
        lemma_pool_at_rest(rest);
        assert(!(workers[workers.len() - 1] is Holding));
        assert(pool_held(workers) =~= Multiset::<ParseOutcomeView>::empty());
    }
}

/// The outcomes of a sequence of blocks whose first block is set apart.
pub proof fn lemma_parse_each_first(blocks: Seq<RawEntryView>)
    requires
        blocks.len() > 0,
    ensures
        parse_each(blocks) == seq![parse(blocks[0])] + parse_each(blocks.drop_first()),
        parse_each(blocks).to_multiset() == parse_each(blocks.drop_first()).to_multiset().insert(
            parse(blocks[0]),
        ),
{
    let all = parse_each(blocks);
    let first = parse(blocks[0]);
    assert(all =~= seq![first] + parse_each(blocks.drop_first()));
    all.to_multiset_ensures();
    assert(all.remove(0) =~= parse_each(blocks.drop_first()));
    assert(all[0] == first);
    assert(all.contains(first));
    assert(all.to_multiset().count(first) > 0);
    assert(all.to_multiset() =~= parse_each(blocks.drop_first()).to_multiset().insert(first));
}

/// The scanner's step loses no block.
pub proof fn lemma_send_conserves(s: SystemView)
    ensures
        accounted(system_step(s, Event::Send)) == accounted(s),
{
    let next = system_step(s, Event::Send);
    if s.unsent.len() > 0 && !(s.raw.is_closed() || s.raw.is_full()) {
        let block = s.unsent[0];
        lemma_parse_each_first(s.unsent);
        parse_each(s.raw.queue).to_multiset_ensures();
        assert(parse_each(s.raw.queue.push(block)) =~= parse_each(s.raw.queue).push(parse(block)));
        assert(accounted(next) =~= accounted(s));
    }
}

/// A worker's attempt to take loses no block.
pub proof fn lemma_taking_conserves(s: SystemView, i: int)
    ensures
        accounted(system_step(s, Event::Take(i))) == accounted(s),
{
    let next = system_step(s, Event::Take(i));
    if 0 <= i < s.workers.len() {
        let taken = take_step(s.workers[i], s.raw.queue, s.raw.senders);
        lemma_take_conserves(s.workers[i], s.raw.queue, s.raw.senders);
        lemma_pool_update(s.workers, i, taken.0);
        let before = held_by(s.workers[i]).add(parse_each(s.raw.queue).to_multiset());
        let after = held_by(taken.0).add(parse_each(taken.1).to_multiset());
        assert(before == after);
        let pool_before = pool_held(s.workers).add(held_by(taken.0));
        let pool_after = pool_held(next.workers).add(held_by(s.workers[i]));
        assert(pool_before == pool_after);
        assert forall|v: ParseOutcomeView| accounted(next).count(v) == accounted(s).count(v) by {
            assert(before.count(v) == after.count(v));
            assert(pool_before.count(v) == pool_after.count(v));
        }
        assert(accounted(next) =~= accounted(s));
    }
}

/// Parsing loses no block.
pub proof fn lemma_working_conserves(s: SystemView, i: int)
    ensures
        accounted(system_step(s, Event::Work(i))) == accounted(s),
{
    let next = system_step(s, Event::Work(i));
    if 0 <= i < s.workers.len() {
        let worked = work_step(s.workers[i]);
        lemma_pool_update(s.workers, i, worked);
        let pool_before = pool_held(s.workers).add(held_by(worked));
        let pool_after = pool_held(next.workers).add(held_by(s.workers[i]));
        assert(pool_before == pool_after);
        assert forall|v: ParseOutcomeView| accounted(next).count(v) == accounted(s).count(v) by {
            assert(pool_before.count(v) == pool_after.count(v));
        }
        assert(accounted(next) =~= accounted(s));
    }
}

/// A worker's attempt to give loses no outcome.
pub proof fn lemma_giving_conserves(s: SystemView, i: int)
    ensures
        accounted(system_step(s, Event::Give(i))) == accounted(s),
{
    let next = system_step(s, Event::Give(i));
    if 0 <= i < s.workers.len() {
        let given = give_step(s.workers[i], s.parsed.queue, s.parsed.capacity, s.parsed.senders);
        lemma_give_conserves(s.workers[i], s.parsed.queue, s.parsed.capacity, s.parsed.senders);
        lemma_pool_update(s.workers, i, given.0);
        let before = s.parsed.queue.to_multiset().add(held_by(s.workers[i]));
        let after = given.1.to_multiset().add(held_by(given.0));
        assert(before == after);
        let pool_before = pool_held(s.workers).add(held_by(given.0));
        let pool_after = pool_held(next.workers).add(held_by(s.workers[i]));
        assert(pool_before == pool_after);
        assert forall|v: ParseOutcomeView| accounted(next).count(v) == accounted(s).count(v) by {
            assert(before.count(v) == after.count(v));
            assert(pool_before.count(v) == pool_after.count(v));
        }
        assert(accounted(next) =~= accounted(s));
    }
}

/// The sink's step loses no outcome.
pub proof fn lemma_receive_conserves(s: SystemView)
    ensures
        accounted(system_step(s, Event::Receive)) == accounted(s),
{
    let next = system_step(s, Event::Receive);
    if s.parsed.queue.len() > 0 {
        let first = s.parsed.queue[0];
        s.arrived.to_multiset_ensures();
        s.parsed.queue.to_multiset_ensures();
        assert(s.parsed.queue.remove(0) =~= s.parsed.queue.drop_first());
        assert(s.parsed.queue.contains(first));
        assert(s.parsed.queue.to_multiset().count(first) > 0);
        assert(accounted(next) =~= accounted(s));
    }
}

/// No event loses a block or invents an outcome: the outcomes that are
/// accounted for are the same before and after it.
pub proof fn lemma_step_conserves(s: SystemView, e: Event)
    ensures
        accounted(system_step(s, e)) == accounted(s),
{
    match e {
        Event::Send => lemma_send_conserves(s),
        Event::Take(i) => lemma_taking_conserves(s, i),
        Event::Work(i) => lemma_working_conserves(s, i),
        Event::Give(i) => lemma_giving_conserves(s, i),
        Event::Receive => lemma_receive_conserves(s),
    }
}

/// No run loses a block or invents an outcome.
pub proof fn lemma_run_conserves(s: SystemView, events: Seq<Event>)
    ensures
        accounted(run(s, events)) == accounted(s),
    decreases events.len(),
{
    if events.len() > 0 {
        lemma_run_conserves(s, events.drop_last());
        lemma_step_conserves(run(s, events.drop_last()), events.last());
    }
}

/// Every block has exactly one outcome, whatever the size of the pool and
/// however the steps of its workers interleave: once a run has come to
/// rest, the outcomes that have arrived at the sink are those of the blocks
/// of the dump, each as often, in some order.
pub proof fn lemma_every_run_delivers(
    blocks: Seq<RawEntryView>,
    workers: nat,
    raw_capacity: nat,
    parsed_capacity: nat,
    events: Seq<Event>,
)
    requires
        is_quiescent(run(start(blocks, workers, raw_capacity, parsed_capacity), events)),
    ensures
        is_rearrangement(
            run(start(blocks, workers, raw_capacity, parsed_capacity), events).arrived,
            parse_each(blocks),
        ),
        run(start(blocks, workers, raw_capacity, parsed_capacity), events).arrived.len()
            == blocks.len(),
{
    let first = start(blocks, workers, raw_capacity, parsed_capacity);
    let last = run(first, events);
    lemma_run_conserves(first, events);
    lemma_pool_at_rest(first.workers);
    lemma_pool_at_rest(last.workers);
    lemma_empty_outcomes(first.arrived);
    lemma_empty_outcomes(first.parsed.queue);
    lemma_empty_outcomes(parse_each(first.raw.queue));
    lemma_empty_outcomes(last.parsed.queue);
    lemma_empty_outcomes(parse_each(last.raw.queue));
    lemma_empty_outcomes(parse_each(last.unsent));
    assert(accounted(first) =~= parse_each(blocks).to_multiset());
    assert(accounted(last) =~= last.arrived.to_multiset());
    last.arrived.to_multiset_ensures();
    parse_each(blocks).to_multiset_ensures();
}

/// A sequence without items has no item to count.
pub proof fn lemma_empty_outcomes(s: Seq<ParseOutcomeView>)
    requires
        s.len() == 0,
    ensures
        s.to_multiset() == Multiset::<ParseOutcomeView>::empty(),
{
    s.to_multiset_ensures();
    assert(s.to_multiset().len() == 0);
    assert(s.to_multiset() =~= Multiset::<ParseOutcomeView>::empty());
}

/// The outcome that a single worker holds, as a row of at most one.
pub open spec fn held_row(w: WorkerView) -> Seq<ParseOutcomeView> {
    match w {
        WorkerView::Holding(e) => seq![parse(e)],
        WorkerView::Ready(o) => seq![o],
        _ => Seq::empty(),
    }
}

/// Five rows in a row, grouped from the right.
pub proof fn lemma_regroup<A>(a: Seq<A>, b: Seq<A>, c: Seq<A>, d: Seq<A>, e: Seq<A>)
    ensures
        a + b + c + d + e == a + (b + (c + (d + e))),
        a + b + c + d + e == a + (b + c) + d + e,
        a + b + c + d + e == a + b + (c + d) + e,
{
    assert(a + b + c + d + e =~= a + (b + (c + (d + e))));
    assert(a + b + c + d + e =~= a + (b + c) + d + e);
    assert(a + b + c + d + e =~= a + b + (c + d) + e);
}

/// With a pool of one worker the scanner's step keeps the order.
pub proof fn lemma_send_keeps_order(s: SystemView)
    requires
        s.workers.len() == 1,
    ensures
        in_a_row(system_step(s, Event::Send)) == in_a_row(s),
{
    let next = system_step(s, Event::Send);
    let held = held_row(s.workers[0]);
    if s.unsent.len() > 0 && !(s.raw.is_closed() || s.raw.is_full()) {
        let block = s.unsent[0];
        lemma_parse_each_first(s.unsent);
        assert(parse_each(s.raw.queue.push(block)) =~= parse_each(s.raw.queue) + seq![parse(block)]);
        assert(parse_each(next.raw.queue) + parse_each(next.unsent) =~= parse_each(s.raw.queue)
            + parse_each(s.unsent));
        lemma_regroup(
            s.arrived,
            s.parsed.queue,
            held,
            parse_each(next.raw.queue),
            parse_each(next.unsent),
        );
        lemma_regroup(
            s.arrived,
            s.parsed.queue,
            held,
            parse_each(s.raw.queue),
            parse_each(s.unsent),
        );
    }
}

/// With a pool of one worker its attempt to take keeps the order.
pub proof fn lemma_taking_keeps_order(s: SystemView, i: int)
    requires
        s.workers.len() == 1,
    ensures
        system_step(s, Event::Take(i)).workers.len() == 1,
        in_a_row(system_step(s, Event::Take(i))) == in_a_row(s),
{
    let next = system_step(s, Event::Take(i));
    if i == 0 && s.workers[0] is Idle && s.raw.queue.len() > 0 {
        lemma_parse_each_first(s.raw.queue);
        assert(held_row(next.workers[0]) + parse_each(next.raw.queue) =~= held_row(s.workers[0])
            + parse_each(s.raw.queue));
        lemma_regroup(
            s.arrived,
            s.parsed.queue,
            held_row(next.workers[0]),
            parse_each(next.raw.queue),
            parse_each(s.unsent),
        );
        lemma_regroup(
            s.arrived,
            s.parsed.queue,
            held_row(s.workers[0]),
            parse_each(s.raw.queue),
            parse_each(s.unsent),
        );
    } else if i == 0 {
        assert(held_row(next.workers[0]) == held_row(s.workers[0]));
    }
}

/// With a pool of one worker parsing keeps the order.
pub proof fn lemma_working_keeps_order(s: SystemView, i: int)
    requires
        s.workers.len() == 1,
    ensures
        system_step(s, Event::Work(i)).workers.len() == 1,
        in_a_row(system_step(s, Event::Work(i))) == in_a_row(s),
{
    let next = system_step(s, Event::Work(i));
    if i == 0 {
        assert(held_row(next.workers[0]) == held_row(s.workers[0]));
    }
}

/// With a pool of one worker its attempt to give keeps the order.
pub proof fn lemma_giving_keeps_order(s: SystemView, i: int)
    requires
        s.workers.len() == 1,
    ensures
        system_step(s, Event::Give(i)).workers.len() == 1,
        in_a_row(system_step(s, Event::Give(i))) == in_a_row(s),
{
    let next = system_step(s, Event::Give(i));
    if i == 0 {
        assert(next.parsed.queue + held_row(next.workers[0]) =~= s.parsed.queue + held_row(
            s.workers[0],
        ));
        lemma_regroup(
            s.arrived,
            next.parsed.queue,
            held_row(next.workers[0]),
            parse_each(s.raw.queue),
            parse_each(s.unsent),
        );
        lemma_regroup(
            s.arrived,
            s.parsed.queue,
            held_row(s.workers[0]),
            parse_each(s.raw.queue),
            parse_each(s.unsent),
        );
    }
}

/// With a pool of one worker the sink's step keeps the order.
pub proof fn lemma_receive_keeps_order(s: SystemView)
    requires
        s.workers.len() == 1,
    ensures
        in_a_row(system_step(s, Event::Receive)) == in_a_row(s),
{
    let next = system_step(s, Event::Receive);
    if s.parsed.queue.len() > 0 {
        assert(next.arrived + next.parsed.queue =~= s.arrived + s.parsed.queue);
    }
}

/// With a pool of one worker no event changes the order of the outcomes.
pub proof fn lemma_step_keeps_order(s: SystemView, e: Event)
    requires
        s.workers.len() == 1,
    ensures
        system_step(s, e).workers.len() == 1,
        in_a_row(system_step(s, e)) == in_a_row(s),
{
    match e {
        Event::Send => lemma_send_keeps_order(s),
        Event::Take(i) => lemma_taking_keeps_order(s, i),
        Event::Work(i) => lemma_working_keeps_order(s, i),
        Event::Give(i) => lemma_giving_keeps_order(s, i),
        Event::Receive => lemma_receive_keeps_order(s),
    }
}

/// With a pool of one worker no run changes the order of the outcomes.
pub proof fn lemma_run_keeps_order(s: SystemView, events: Seq<Event>)
    requires
        s.workers.len() == 1,
    ensures
        run(s, events).workers.len() == 1,
        in_a_row(run(s, events)) == in_a_row(s),
    decreases events.len(),
{
    if events.len() > 0 {
        lemma_run_keeps_order(s, events.drop_last());
        lemma_step_keeps_order(run(s, events.drop_last()), events.last());
    }
}

/// With a pool of one worker the outcomes arrive in file order: once a run
/// has come to rest, what has arrived at the sink is the outcome of each
/// block of the dump, in the order of the blocks. A larger pool changes the
/// order of arrival and nothing else.
pub proof fn lemma_single_worker_keeps_file_order(
    blocks: Seq<RawEntryView>,
    raw_capacity: nat,
    parsed_capacity: nat,
    events: Seq<Event>,
)
    requires
        is_quiescent(run(start(blocks, 1, raw_capacity, parsed_capacity), events)),
    ensures
        run(start(blocks, 1, raw_capacity, parsed_capacity), events).arrived == parse_each(
            blocks,
        ),
{
    let first = start(blocks, 1, raw_capacity, parsed_capacity);
    let last = run(first, events);
    lemma_run_keeps_order(first, events);
    assert(in_a_row(first) =~= parse_each(blocks));
    assert(in_a_row(last) =~= last.arrived);
}

} // verus!
