//! The sink: the single consumer of parse outcomes.
//!
//! Records are gathered into batches of a fixed size; a full batch goes to
//! the store, and what is left at the end of the stream goes there with the
//! final flush. Errors go to diagnostics one by one. The sink counts both;
//! a count that would pass the largest number stays there.

use crate::channel::Received;
use crate::error::{ParseError, ParseErrorView};
use crate::record::{
    outcome_views, record_views, ParseOutcome, ParseOutcomeView, ParsedRecord, ParsedRecordView,
};
use vstd::prelude::*;

verus! {

/// A count held in 64 bits: `n`, or the largest number if `n` is larger.
pub open spec fn capped(n: int) -> u64 {
    if n > u64::MAX {
        u64::MAX
    } else if n < 0 {
        0
    } else {
        n as u64
    }
}

/// The counts that a run ends with.
#[derive(Clone, Copy, Debug, PartialEq, Eq, Structural)]
pub struct Summary {
    /// The number of records that went to the store.
    pub persisted: u64,
    /// The number of parse errors.
    pub errors: u64,
}

/// The sink.
#[derive(Debug)]
pub struct Sink {
    batch: Vec<ParsedRecord>,
    batch_size: usize,
    persisted: u64,
    errors: u64,
}

/// The mathematical content of a [`Sink`]: the records that wait for the
/// next flush, the size of a full batch, and the two counts so far.
pub struct SinkView {
    pub pending: Seq<ParsedRecordView>,
    pub batch_size: nat,
    pub persisted: u64,
    pub errors: u64,
}

/// What the owner of the sink has to do after an outcome was accepted.
#[derive(Debug, PartialEq, Eq)]
pub enum SinkAction {
    /// Hand this full batch to the store.
    Store(Vec<ParsedRecord>),
    /// Hand this error to diagnostics.
    Report(ParseError),
    /// Nothing: the record waits for its batch to fill.
    Wait,
}

/// The mathematical content of a [`SinkAction`].
pub enum SinkActionView {
    Store(Seq<ParsedRecordView>),
    Report(ParseErrorView),
    Wait,
}

impl View for SinkAction {
    type V = SinkActionView;

    open spec fn view(&self) -> SinkActionView {
        match self {
            SinkAction::Store(batch) => SinkActionView::Store(record_views(batch@)),
            SinkAction::Report(e) => SinkActionView::Report(e@),
            SinkAction::Wait => SinkActionView::Wait,
        }
    }
}

impl View for Sink {
    type V = SinkView;

    closed spec fn view(&self) -> SinkView {
        SinkView {
            pending: record_views(self.batch@),
            batch_size: self.batch_size as nat,
            persisted: self.persisted,
            errors: self.errors,
        }
    }
}

/// What the owner of the sink has to do after it looked into the outcome
/// channel.
#[derive(Debug, PartialEq, Eq)]
pub enum SinkTurn {
    /// An outcome was accepted: do this.
    Act(SinkAction),
    /// The channel is empty and not closed: wait for it.
    Suspend,
    /// The channel is drained: hand this last batch, which may be empty,
    /// to the store, flush the store, and end the run with these counts.
    Complete(Vec<ParsedRecord>, Summary),
}

/// The mathematical content of a [`SinkTurn`].
pub enum SinkTurnView {
    Act(SinkActionView),
    Suspend,
    Complete(Seq<ParsedRecordView>, Summary),
}

impl View for SinkTurn {
    type V = SinkTurnView;

    open spec fn view(&self) -> SinkTurnView {
        match self {
            SinkTurn::Act(action) => SinkTurnView::Act(action@),
            SinkTurn::Suspend => SinkTurnView::Suspend,
            SinkTurn::Complete(batch, summary) => SinkTurnView::Complete(
                record_views(batch@),
                *summary,
            ),
        }
    }
}

/// What a receiver got from the outcome channel, as a mathematical value.
pub open spec fn received_view(r: Received<ParseOutcome>) -> Received<ParseOutcomeView> {
    match r {
        Received::Item(o) => Received::Item(o@),
        Received::Empty => Received::Empty,
        Received::Drained => Received::Drained,
    }
}

/// The sink after the final flush: nothing waits, and what waited counts
/// as stored.
pub open spec fn sink_flushed(s: SinkView) -> SinkView {
    SinkView { pending: Seq::empty(), persisted: sink_finish(s).1.persisted, ..s }
}

/// One turn of the sink, from what it received: an outcome is a step; an
/// empty channel leaves the sink as it is; a drained channel ends the run
/// with the final flush.
pub open spec fn sink_turn(s: SinkView, r: Received<ParseOutcomeView>) -> (SinkView, SinkTurnView) {
    match r {
        Received::Item(o) => (sink_step(s, o).0, SinkTurnView::Act(sink_step(s, o).1)),
        Received::Empty => (s, SinkTurnView::Suspend),
        Received::Drained => (
            sink_flushed(s),
            SinkTurnView::Complete(sink_finish(s).0, sink_finish(s).1),
        ),
    }
}

/// One step of the sink: from its state and an outcome to its new state and
/// the action that is due.
pub open spec fn sink_step(s: SinkView, o: ParseOutcomeView) -> (SinkView, SinkActionView) {
    match o {
        ParseOutcomeView::Error(e) => (
            SinkView { errors: capped(s.errors + 1), ..s },
            SinkActionView::Report(e),
        ),
        ParseOutcomeView::Record(r) => {
            let batch = s.pending.push(r);
            if batch.len() >= s.batch_size {
                (
                    SinkView {
                        pending: Seq::empty(),
                        persisted: capped(s.persisted + batch.len()),
                        ..s
                    },
                    SinkActionView::Store(batch),
                )
            } else {
                (SinkView { pending: batch, ..s }, SinkActionView::Wait)
            }
        },
    }
}

/// The end of the stream: the last batch, which may be empty, and the
/// counts of the run.
pub open spec fn sink_finish(s: SinkView) -> (Seq<ParsedRecordView>, Summary) {
    (
        s.pending,
        Summary { persisted: capped(s.persisted + s.pending.len()), errors: s.errors },
    )
}

/// The records that an action hands to the store.
pub open spec fn stored_by(a: SinkActionView) -> Seq<ParsedRecordView> {
    match a {
        SinkActionView::Store(batch) => batch,
        _ => Seq::empty(),
    }
}

/// The state of the sink after it accepted the outcomes one by one.
pub open spec fn sink_after(s: SinkView, outcomes: Seq<ParseOutcomeView>) -> SinkView
    decreases outcomes.len(),
{
    if outcomes.len() == 0 {
        s
    } else {
        sink_step(sink_after(s, outcomes.drop_last()), outcomes.last()).0
    }
}

/// The records that went to the store, batch after batch, while the sink
/// accepted the outcomes one by one.
pub open spec fn stored_during(s: SinkView, outcomes: Seq<ParseOutcomeView>) -> Seq<
    ParsedRecordView,
>
    decreases outcomes.len(),
{
    if outcomes.len() == 0 {
        Seq::empty()
    } else {
        stored_during(s, outcomes.drop_last()) + stored_by(
            sink_step(sink_after(s, outcomes.drop_last()), outcomes.last()).1,
        )
    }
}

/// The records among the outcomes, in order.
pub open spec fn records_of(outcomes: Seq<ParseOutcomeView>) -> Seq<ParsedRecordView>
    decreases outcomes.len(),
{
    if outcomes.len() == 0 {
        Seq::empty()
    } else {
        match outcomes.last() {
            ParseOutcomeView::Record(r) => records_of(outcomes.drop_last()).push(r),
            ParseOutcomeView::Error(_) => records_of(outcomes.drop_last()),
        }
    }
}

/// The errors among the outcomes, in order.
pub open spec fn errors_of(outcomes: Seq<ParseOutcomeView>) -> Seq<ParseErrorView>
    decreases outcomes.len(),
{
    if outcomes.len() == 0 {
        Seq::empty()
    } else {
        match outcomes.last() {
            ParseOutcomeView::Record(_) => errors_of(outcomes.drop_last()),
            ParseOutcomeView::Error(e) => errors_of(outcomes.drop_last()).push(e),
        }
    }
}

/// A fresh sink.
pub open spec fn empty_sink(batch_size: nat) -> SinkView {
    SinkView { pending: Seq::empty(), batch_size, persisted: 0, errors: 0 }
}

/// Nothing is lost and nothing is invented: what went to the store, followed
/// by what still waits, is what waited at first followed by the records
/// among the outcomes, in their order. No batch is left full, and the
/// counts are those of the records stored and of the errors seen.
pub proof fn lemma_sink_delivers(s: SinkView, outcomes: Seq<ParseOutcomeView>)
    requires
        s.batch_size >= 1,
        s.pending.len() < s.batch_size,
    ensures
        stored_during(s, outcomes) + sink_after(s, outcomes).pending == s.pending + records_of(
            outcomes,
        ),
        sink_after(s, outcomes).pending.len() < s.batch_size,
        sink_after(s, outcomes).batch_size == s.batch_size,
        sink_after(s, outcomes).persisted == capped(
            s.persisted + stored_during(s, outcomes).len(),
        ),
        sink_after(s, outcomes).errors == capped(s.errors + errors_of(outcomes).len()),
    decreases outcomes.len(),
{
    if outcomes.len() == 0 {
        assert(stored_during(s, outcomes) + s.pending =~= s.pending + records_of(outcomes));
    } else {
        let before = outcomes.drop_last();
        lemma_sink_delivers(s, before);
        let mid = sink_after(s, before);
        let (next, action) = sink_step(mid, outcomes.last());
        match outcomes.last() {
            ParseOutcomeView::Record(r) => {
                assert(stored_during(s, outcomes) + next.pending =~= (stored_during(s, before)
                    + mid.pending).push(r));
                assert((s.pending + records_of(before)).push(r) =~= s.pending + records_of(
                    outcomes,
                ));
            },
            ParseOutcomeView::Error(_) => {
                assert(stored_during(s, outcomes) =~= stored_during(s, before));
            },
        }
    }
}

/// A run that starts with a fresh sink and ends with the final flush hands
/// the store exactly the records among the outcomes, in their order, and
/// counts them and the errors.
pub proof fn lemma_run_delivers(batch_size: nat, outcomes: Seq<ParseOutcomeView>)
    requires
        batch_size >= 1,
    ensures
        stored_during(empty_sink(batch_size), outcomes) + sink_finish(
            sink_after(empty_sink(batch_size), outcomes),
        ).0 == records_of(outcomes),
        sink_finish(sink_after(empty_sink(batch_size), outcomes)).1 == (Summary {
            persisted: capped(records_of(outcomes).len() as int),
            errors: capped(errors_of(outcomes).len() as int),
        }),
        records_of(outcomes).len() + errors_of(outcomes).len() == outcomes.len(),
{
    let s = empty_sink(batch_size);
    lemma_sink_delivers(s, outcomes);
    assert(s.pending + records_of(outcomes) =~= records_of(outcomes));
    lemma_outcomes_split(outcomes);
}

/// Every outcome is a record or an error.
pub proof fn lemma_outcomes_split(outcomes: Seq<ParseOutcomeView>)
    ensures
        records_of(outcomes).len() + errors_of(outcomes).len() == outcomes.len(),
    decreases outcomes.len(),
{
    if outcomes.len() > 0 {
        lemma_outcomes_split(outcomes.drop_last());
    }
}

/// Adds one to a count, up to the largest number.
fn count_up(n: u64, k: usize) -> (r: u64)
    ensures
        r == capped(n + k),
{
    match n.checked_add(k as u64) {
        Some(r) => r,
        None => u64::MAX,
    }
}

impl Sink {
    /// A sink that flushes batches of `batch_size` records. A size of zero
    /// is raised to one.
    pub fn new(batch_size: usize) -> (s: Sink)
        ensures
            s@ == empty_sink(
                if batch_size == 0 {
                    1nat
                } else {
                    batch_size as nat
                },
            ),
    {
        let batch_size = if batch_size == 0 {
            1
        } else {
            batch_size
        };
        let s = Sink { batch: Vec::new(), batch_size, persisted: 0, errors: 0 };
        assert(s@.pending =~= Seq::empty());
        s
    }

    /// Accepts one outcome and tells what is due.
    pub fn accept(&mut self, outcome: ParseOutcome) -> (action: SinkAction)
        ensures
            (final(self)@, action@) == sink_step(old(self)@, outcome@),
    {
        match outcome {
            ParseOutcome::Error(e) => {
                self.errors = count_up(self.errors, 1);
                SinkAction::Report(e)
            },
            ParseOutcome::Record(r) => {
                assert(record_views(self.batch@.push(r)) =~= record_views(self.batch@).push(r@));
                self.batch.push(r);
                if self.batch.len() >= self.batch_size {
                    let mut full: Vec<ParsedRecord> = Vec::new();
                    core::mem::swap(&mut self.batch, &mut full);
                    self.persisted = count_up(self.persisted, full.len());
                    assert(record_views(self.batch@) =~= Seq::empty());
                    SinkAction::Store(full)
                } else {
                    SinkAction::Wait
                }
            },
        }
    }

    /// Takes what was received from the outcome channel and tells what is
    /// due: the action for an outcome, a wait, or the end of the run.
    pub fn handle(&mut self, received: Received<ParseOutcome>) -> (turn: SinkTurn)
        ensures
            (final(self)@, turn@) == sink_turn(old(self)@, received_view(received)),
    {
        match received {
            Received::Item(outcome) => SinkTurn::Act(self.accept(outcome)),
            Received::Empty => SinkTurn::Suspend,
            Received::Drained => {
                let mut last: Vec<ParsedRecord> = Vec::new();
                core::mem::swap(&mut self.batch, &mut last);
                self.persisted = count_up(self.persisted, last.len());
                assert(record_views(self.batch@) =~= Seq::empty());
                SinkTurn::Complete(last, Summary { persisted: self.persisted, errors: self.errors })
            },
        }
    }

    /// Ends the stream: returns the last batch for the final flush, which
    /// may be empty, and the counts of the run.
    pub fn finish(self) -> (end: (Vec<ParsedRecord>, Summary))
        ensures
            (record_views(end.0@), end.1) == sink_finish(self@),
    {
        let persisted = count_up(self.persisted, self.batch.len());
        (self.batch, Summary { persisted, errors: self.errors })
    }

    /// The counts so far: the records stored, not those that wait, and the
    /// errors.
    pub fn summary(&self) -> (s: Summary)
        ensures
            s == (Summary { persisted: self@.persisted, errors: self@.errors }),
    {
        Summary { persisted: self.persisted, errors: self.errors }
    }
}

/// What a run hands to its collaborators: the batches for the store in the
/// order of the flushes, the errors for diagnostics in the order of arrival,
/// and the counts.
#[derive(Debug, PartialEq, Eq)]
pub struct Delivery {
    pub batches: Vec<Vec<ParsedRecord>>,
    pub errors: Vec<ParseError>,
    pub summary: Summary,
}

/// The records of some batches, batch after batch.
pub open spec fn batch_records(batches: Seq<Vec<ParsedRecord>>) -> Seq<ParsedRecordView>
    decreases batches.len(),
{
    if batches.len() == 0 {
        Seq::empty()
    } else {
        batch_records(batches.drop_last()) + record_views(batches.last()@)
    }
}

/// The contents of a vector of errors.
pub open spec fn error_views(v: Seq<ParseError>) -> Seq<ParseErrorView> {
    Seq::new(v.len(), |i: int| v[i]@)
}

/// Runs a sink over outcomes that are all at hand: every full batch and the
/// last one, if it is not empty, go to the store, every error to
/// diagnostics.
pub fn deliver(outcomes: Vec<ParseOutcome>, batch_size: usize) -> (d: Delivery)
    ensures
        batch_records(d.batches@) == records_of(outcome_views(outcomes@)),
        error_views(d.errors@) == errors_of(outcome_views(outcomes@)),
        d.summary == (Summary {
            persisted: capped(records_of(outcome_views(outcomes@)).len() as int),
            errors: capped(errors_of(outcome_views(outcomes@)).len() as int),
        }),
        forall|k: int| 0 <= k < d.batches@.len() ==> (#[trigger] d.batches@[k])@.len() > 0,
{
    let mut sink = Sink::new(batch_size);
    let mut batches: Vec<Vec<ParsedRecord>> = Vec::new();
    let mut errors: Vec<ParseError> = Vec::new();
    let ghost items = outcomes@;
    let ghost all = outcome_views(items);
    let ghost first = sink@;
    proof {
        assert(all.take(0) =~= Seq::empty());
        assert(error_views(errors@) =~= Seq::empty());
    }
    for outcome in it: outcomes
        invariant
            it.seq() == items,
            all == outcome_views(items),
            first.batch_size >= 1,
            first == empty_sink(first.batch_size),
            sink@ == sink_after(first, all.take(it.index() as int)),
            batch_records(batches@) == stored_during(first, all.take(it.index() as int)),
            error_views(errors@) == errors_of(all.take(it.index() as int)),
            forall|k: int| 0 <= k < batches@.len() ==> (#[trigger] batches@[k])@.len() > 0,
    {
        let ghost i = it.index() as int;
        let ghost seen = all.take(i);
        proof {
            assert(all.take(i + 1).drop_last() =~= seen);
            assert(all.take(i + 1).last() == outcome@);
            lemma_sink_delivers(first, seen);
        }
        let ghost stored = batches@;
        let ghost reported = errors@;
        match sink.accept(outcome) {
            SinkAction::Store(batch) => {
                batches.push(batch);
                proof {
                    assert(batches@.drop_last() =~= stored);
                }
            },
            SinkAction::Report(e) => {
                errors.push(e);
                proof {
                    assert(error_views(errors@) =~= error_views(reported).push(e@));
                    assert(batch_records(stored) + Seq::<ParsedRecordView>::empty()
                        =~= batch_records(stored));
                }
            },
            SinkAction::Wait => {
                proof {
                    assert(batch_records(stored) + Seq::<ParsedRecordView>::empty()
                        =~= batch_records(stored));
                }
            },
        }
    }
    proof {
        assert(all.take(all.len() as int) =~= all);
        lemma_run_delivers(first.batch_size, all);
    }
    let ghost stored = batches@;
    let (last, summary) = sink.finish();
    if last.len() > 0 {
        batches.push(last);
        proof {
            assert(batches@.drop_last() =~= stored);
        }
    } else {
        proof {
            assert(record_views(last@) =~= Seq::empty());
            assert(batch_records(stored) + Seq::<ParsedRecordView>::empty() =~= batch_records(
                stored,
            ));
        }
    }
    Delivery { batches, errors, summary }
}

} // verus!
