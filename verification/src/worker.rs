//! One parser worker between the two channels, as a state machine.
//!
//! A worker takes the oldest block from the raw-entry channel, parses it,
//! and gives the outcome to the outcome channel. The three steps are apart
//! so that a worker holds a channel only while it takes or gives, never
//! while it parses. A worker never waits itself: a step that cannot go on
//! says so, and whoever runs the worker suspends it until the channel has
//! changed. An outcome that the outcome channel could not take stays with
//! the worker until it can, so no block is ever lost. When the raw-entry
//! channel is drained the worker releases its sender of the outcome channel
//! and is finished.

use crate::channel::{Channel, Received, Sent};
use crate::entry::{entry_views, RawEntry, RawEntryView};
use crate::parse::{parse, parse_each, parse_entry};
use crate::record::{outcome_views, ParseOutcome, ParseOutcomeView};
use vstd::multiset::Multiset;
use vstd::prelude::*;

verus! {

/// What a worker is about.
#[derive(Debug)]
pub enum WorkerState {
    /// It holds nothing and may take a block.
    Idle,
    /// It holds a block that it has not parsed yet.
    Holding(RawEntry),
    /// It holds an outcome that it has not given yet.
    Ready(ParseOutcome),
    /// It saw the raw-entry channel drained and has yet to release the
    /// outcome channel.
    Closing,
    /// It has released the outcome channel.
    Finished,
}

/// The mathematical content of a [`WorkerState`].
pub enum WorkerView {
    Idle,
    Holding(RawEntryView),
    Ready(ParseOutcomeView),
    Closing,
    Finished,
}

impl View for WorkerState {
    type V = WorkerView;

    open spec fn view(&self) -> WorkerView {
        match self {
            WorkerState::Idle => WorkerView::Idle,
            WorkerState::Holding(e) => WorkerView::Holding(e@),
            WorkerState::Ready(o) => WorkerView::Ready(o@),
            WorkerState::Closing => WorkerView::Closing,
            WorkerState::Finished => WorkerView::Finished,
        }
    }
}

/// A parser worker.
#[derive(Debug)]
pub struct Worker {
    state: WorkerState,
}

impl View for Worker {
    type V = WorkerView;

    closed spec fn view(&self) -> WorkerView {
        self.state@
    }
}

/// How an attempt to take a block ended.
#[derive(Clone, Copy, Debug, PartialEq, Eq, Structural)]
pub enum Took {
    /// The worker took the oldest block.
    Block,
    /// The raw-entry channel is empty and not closed.
    Wait,
    /// The raw-entry channel is drained: the worker is closing.
    Drained,
    /// The worker was not idle and took nothing.
    Busy,
}

/// How an attempt to give an outcome ended.
#[derive(Clone, Copy, Debug, PartialEq, Eq, Structural)]
pub enum Gave {
    /// The outcome went into the outcome channel.
    Outcome,
    /// The outcome channel is full; the worker keeps the outcome.
    Wait,
    /// The outcome channel is closed though this worker has not released
    /// it; the worker keeps an outcome that nobody will take.
    Closed,
    /// The worker released the outcome channel and is finished.
    Released,
    /// The worker had nothing to give.
    Nothing,
}

/// How a turn of a worker ended.
#[derive(Clone, Copy, Debug, PartialEq, Eq, Structural)]
pub enum Turn {
    /// An outcome went into the outcome channel.
    Moved,
    /// The raw-entry channel is empty and not closed.
    WaitInput,
    /// The outcome channel is full; the worker holds an outcome.
    WaitOutput,
    /// The outcome channel is closed though this worker has not released
    /// it; the worker holds an outcome that nobody will take.
    OutputClosed,
    /// The worker is finished.
    Finished,
}

/// A worker and its two channels, as mathematical values.
pub struct StageView {
    /// The worker.
    pub worker: WorkerView,
    /// The blocks that wait in the raw-entry channel.
    pub input: Seq<RawEntryView>,
    /// The senders of the raw-entry channel.
    pub input_senders: nat,
    /// The outcomes that wait in the outcome channel.
    pub output: Seq<ParseOutcomeView>,
    /// The capacity of the outcome channel.
    pub output_capacity: nat,
    /// The senders of the outcome channel.
    pub output_senders: nat,
}

/// The stage that a worker and its channels form.
pub open spec fn stage(w: Worker, input: Channel<RawEntry>, output: Channel<ParseOutcome>) -> StageView {
    StageView {
        worker: w@,
        input: entry_views(input@.queue),
        input_senders: input@.senders,
        output: outcome_views(output@.queue),
        output_capacity: output@.capacity,
        output_senders: output@.senders,
    }
}

/// The first step: an idle worker takes the oldest block of the raw-entry
/// channel, or learns that none will come. The result holds the worker and
/// the blocks that wait after the step.
pub open spec fn take_step(w: WorkerView, input: Seq<RawEntryView>, senders: nat) -> (
    WorkerView,
    Seq<RawEntryView>,
    Took,
) {
    if w is Idle {
        if input.len() > 0 {
            (WorkerView::Holding(input[0]), input.drop_first(), Took::Block)
        } else if senders == 0 {
            (WorkerView::Closing, input, Took::Drained)
        } else {
            (w, input, Took::Wait)
        }
    } else {
        (w, input, Took::Busy)
    }
}

/// The second step: a worker that holds a block parses it.
pub open spec fn work_step(w: WorkerView) -> WorkerView {
    match w {
        WorkerView::Holding(e) => WorkerView::Ready(parse(e)),
        _ => w,
    }
}

/// The third step: a worker that holds an outcome gives it if the outcome
/// channel can take it, and a worker that is closing releases the channel.
/// The result holds the worker, the outcomes that wait and the senders of
/// the outcome channel after the step.
pub open spec fn give_step(
    w: WorkerView,
    output: Seq<ParseOutcomeView>,
    capacity: nat,
    senders: nat,
) -> (WorkerView, Seq<ParseOutcomeView>, nat, Gave) {
    match w {
        WorkerView::Ready(o) => if senders == 0 {
            (w, output, senders, Gave::Closed)
        } else if output.len() >= capacity {
            (w, output, senders, Gave::Wait)
        } else {
            (WorkerView::Idle, output.push(o), senders, Gave::Outcome)
        },
        WorkerView::Closing => (
            WorkerView::Finished,
            output,
            if senders == 0 {
                0nat
            } else {
                (senders - 1) as nat
            },
            Gave::Released,
        ),
        _ => (w, output, senders, Gave::Nothing),
    }
}

/// How a turn ended, from the worker after it and how its last step ended.
pub open spec fn turn_of(w: WorkerView, gave: Gave) -> Turn {
    match gave {
        Gave::Outcome => Turn::Moved,
        Gave::Wait => Turn::WaitOutput,
        Gave::Closed => Turn::OutputClosed,
        Gave::Released => Turn::Finished,
        Gave::Nothing => if w is Finished {
            Turn::Finished
        } else {
            Turn::WaitInput
        },
    }
}

/// One turn of a worker: the three steps in a row.
pub open spec fn worker_step(s: StageView) -> (StageView, Turn) {
    let taken = take_step(s.worker, s.input, s.input_senders);
    let given = give_step(work_step(taken.0), s.output, s.output_capacity, s.output_senders);
    (
        StageView {
            worker: given.0,
            input: taken.1,
            input_senders: s.input_senders,
            output: given.1,
            output_capacity: s.output_capacity,
            output_senders: given.2,
        },
        turn_of(given.0, given.3),
    )
}

/// The outcome that a worker answers for: that of the block or the outcome
/// that it holds.
pub open spec fn held_by(w: WorkerView) -> Multiset<ParseOutcomeView> {
    match w {
        WorkerView::Holding(e) => Multiset::singleton(parse(e)),
        WorkerView::Ready(o) => Multiset::singleton(o),
        _ => Multiset::empty(),
    }
}

/// The outcomes that a stage answers for: those that wait in the outcome
/// channel, that of what the worker holds, and those of the blocks that
/// wait in the raw-entry channel.
pub open spec fn in_flight(s: StageView) -> Multiset<ParseOutcomeView> {
    s.output.to_multiset().add(held_by(s.worker)).add(parse_each(s.input).to_multiset())
}

/// Taking a block moves its outcome from those of the waiting blocks to
/// that of the worker.
pub proof fn lemma_take_conserves(w: WorkerView, input: Seq<RawEntryView>, senders: nat)
    ensures
        held_by(take_step(w, input, senders).0).add(
            parse_each(take_step(w, input, senders).1).to_multiset(),
        ) == held_by(w).add(parse_each(input).to_multiset()),
{
    let taken = take_step(w, input, senders);
    if w is Idle && input.len() > 0 {
        let all = parse_each(input);
        let first = parse(input[0]);
        all.to_multiset_ensures();
        assert(all.remove(0) =~= parse_each(input.drop_first()));
        assert(all[0] == first);
        assert(all.contains(first));
        assert(all.to_multiset().count(first) > 0);
        assert(all.to_multiset() =~= parse_each(input.drop_first()).to_multiset().insert(first));
    }
    assert(held_by(taken.0).add(parse_each(taken.1).to_multiset()) =~= held_by(w).add(
        parse_each(input).to_multiset(),
    ));
}

/// Parsing changes nothing in what the worker answers for.
pub proof fn lemma_work_conserves(w: WorkerView)
    ensures
        held_by(work_step(w)) == held_by(w),
{
}

/// Giving an outcome moves it from the worker to the outcome channel.
pub proof fn lemma_give_conserves(
    w: WorkerView,
    output: Seq<ParseOutcomeView>,
    capacity: nat,
    senders: nat,
)
    ensures
        give_step(w, output, capacity, senders).1.to_multiset().add(
            held_by(give_step(w, output, capacity, senders).0),
        ) == output.to_multiset().add(held_by(w)),
{
    let given = give_step(w, output, capacity, senders);
    output.to_multiset_ensures();
    assert(given.1.to_multiset().add(held_by(given.0)) =~= output.to_multiset().add(held_by(w)));
}

/// A turn loses no block and invents no outcome: the outcomes that the
/// stage answers for are the same before and after it.
pub proof fn lemma_turn_conserves(s: StageView)
    ensures
        in_flight(worker_step(s).0) == in_flight(s),
{
    let taken = take_step(s.worker, s.input, s.input_senders);
    let worked = work_step(taken.0);
    let given = give_step(worked, s.output, s.output_capacity, s.output_senders);
    lemma_take_conserves(s.worker, s.input, s.input_senders);
    lemma_work_conserves(taken.0);
    lemma_give_conserves(worked, s.output, s.output_capacity, s.output_senders);
    let rest = parse_each(taken.1).to_multiset();
    let after_take = held_by(taken.0).add(rest);
    let after_give = given.1.to_multiset().add(held_by(given.0));
    assert(after_take == held_by(s.worker).add(parse_each(s.input).to_multiset()));
    assert(after_give == s.output.to_multiset().add(held_by(taken.0)));
    assert forall|v: ParseOutcomeView|
        in_flight(worker_step(s).0).count(v) == in_flight(s).count(v) by {
        assert(after_take.count(v) == held_by(s.worker).count(v) + parse_each(
            s.input,
        ).to_multiset().count(v));
        assert(after_give.count(v) == s.output.to_multiset().count(v) + held_by(taken.0).count(v));
    }
    assert(in_flight(worker_step(s).0) =~= in_flight(s));
}

/// A worker gives an outcome only for a block that it took, and the outcome
/// is that of parsing the block: a turn of an idle worker with a block in
/// reach and room in the outcome channel appends the outcome of the oldest
/// block to that channel.
pub proof fn lemma_turn_moves_the_oldest(s: StageView)
    requires
        s.worker is Idle,
        s.input.len() > 0,
        s.output_senders > 0,
        s.output.len() < s.output_capacity,
    ensures
        worker_step(s).1 == Turn::Moved,
        worker_step(s).0.worker is Idle,
        worker_step(s).0.input == s.input.drop_first(),
        worker_step(s).0.output == s.output.push(parse(s.input[0])),
{
}

impl Worker {
    /// An idle worker.
    pub fn new() -> (w: Worker)
        ensures
            w@ is Idle,
    {
        Worker { state: WorkerState::Idle }
    }

    /// Tells whether the worker has released the outcome channel.
    pub fn is_finished(&self) -> (b: bool)
        ensures
            b == (self@ is Finished),
    {
        match self.state {
            WorkerState::Finished => true,
            _ => false,
        }
    }

    /// Takes the oldest block from the raw-entry channel, if the worker is
    /// idle and there is one.
    pub fn take(&mut self, input: &mut Channel<RawEntry>) -> (t: Took)
        ensures
            final(input)@.capacity == old(input)@.capacity,
            final(input)@.senders == old(input)@.senders,
            old(input).wf() ==> final(input).wf(),
            (final(self)@, entry_views(final(input)@.queue), t) == take_step(
                old(self)@,
                entry_views(old(input)@.queue),
                old(input)@.senders,
            ),
    {
        match self.state {
            WorkerState::Idle => {},
            _ => {
                return Took::Busy;
            },
        }
        match input.try_receive() {
            Received::Item(entry) => {
                assert(entry_views(input@.queue) =~= entry_views(old(input)@.queue).drop_first());
                self.state = WorkerState::Holding(entry);
                Took::Block
            },
            Received::Empty => Took::Wait,
            Received::Drained => {
                self.state = WorkerState::Closing;
                Took::Drained
            },
        }
    }

    /// Parses the block that the worker holds, if it holds one.
    pub fn work(&mut self)
        ensures
            final(self)@ == work_step(old(self)@),
    {
        let mut state = WorkerState::Idle;
        core::mem::swap(&mut self.state, &mut state);
        self.state = match state {
            WorkerState::Holding(entry) => WorkerState::Ready(parse_entry(&entry)),
            other => other,
        };
    }

    /// Gives the outcome that the worker holds to the outcome channel, if it
    /// holds one and the channel can take it; releases the channel if the
    /// worker is closing.
    pub fn give(&mut self, output: &mut Channel<ParseOutcome>) -> (g: Gave)
        ensures
            final(output)@.capacity == old(output)@.capacity,
            old(output).wf() ==> final(output).wf(),
            (final(self)@, outcome_views(final(output)@.queue), final(output)@.senders, g)
                == give_step(
                old(self)@,
                outcome_views(old(output)@.queue),
                old(output)@.capacity,
                old(output)@.senders,
            ),
    {
        let mut state = WorkerState::Idle;
        core::mem::swap(&mut self.state, &mut state);
        match state {
            WorkerState::Ready(outcome) => {
                match output.try_send(outcome) {
                    Sent::Accepted => {
                        assert(outcome_views(output@.queue) =~= outcome_views(
                            old(output)@.queue,
                        ).push(outcome@));
                        Gave::Outcome
                    },
                    Sent::Full(back) => {
                        self.state = WorkerState::Ready(back);
                        Gave::Wait
                    },
                    Sent::Closed(back) => {
                        self.state = WorkerState::Ready(back);
                        Gave::Closed
                    },
                }
            },
            WorkerState::Closing => {
                output.release_sender();
                self.state = WorkerState::Finished;
                Gave::Released
            },
            other => {
                self.state = other;
                Gave::Nothing
            },
        }
    }

    /// Takes one turn: takes a block if the worker is idle, parses what it
    /// holds, and gives what it has.
    pub fn turn(&mut self, input: &mut Channel<RawEntry>, output: &mut Channel<ParseOutcome>) -> (t:
        Turn)
        ensures
            (stage(*final(self), *final(input), *final(output)), t) == worker_step(
                stage(*old(self), *old(input), *old(output)),
            ),
            final(input)@.capacity == old(input)@.capacity,
            final(input)@.senders == old(input)@.senders,
            final(output)@.capacity == old(output)@.capacity,
            old(input).wf() ==> final(input).wf(),
            old(output).wf() ==> final(output).wf(),
    {
        self.take(input);
        self.work();
        let gave = self.give(output);
        match gave {
            Gave::Outcome => Turn::Moved,
            Gave::Wait => Turn::WaitOutput,
            Gave::Closed => Turn::OutputClosed,
            Gave::Released => Turn::Finished,
            Gave::Nothing => if self.is_finished() {
                Turn::Finished
            } else {
                Turn::WaitInput
            },
        }
    }
}

} // verus!
