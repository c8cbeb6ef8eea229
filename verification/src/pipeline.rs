//! The pipeline as a whole: from the lines of a dump to parse outcomes.
//!
//! Blocks leave the scanner in file order. Workers take them in whatever
//! order the race for the channel yields, so outcomes reach the sink in any
//! order; what does not depend on that order is stated and proved here.

use crate::entry::RawEntryView;
use crate::parse::{parse, parse_all, parse_each};
use crate::record::{outcome_views, ParseOutcome, ParseOutcomeView, ParsedRecordView};
use crate::scanner::{
    lemma_blank_dump_is_empty, lemma_scan_counts_stanzas, scan, scan_lines, scan_text,
    stanza_count,
};
use crate::sink::{
    batch_records, capped, deliver, error_views, errors_of, lemma_outcomes_split, records_of,
    Delivery, Summary,
};
use crate::text::{is_blank, split, views, LINE_FEED};
use vstd::multiset::Multiset;
use vstd::prelude::*;

verus! {

/// The outcomes of a dump given as its lines, in file order.
pub open spec fn outcomes_of(lines: Seq<Seq<u8>>) -> Seq<ParseOutcomeView> {
    parse_each(scan(lines))
}

/// One sequence holds the items of the other in some order.
pub open spec fn is_rearrangement<A>(a: Seq<A>, b: Seq<A>) -> bool {
    a.to_multiset() == b.to_multiset()
}

/// Every block has exactly one outcome, so a dump has as many outcomes as
/// it has stanzas, and the outcome at each place is that of the block at
/// that place.
pub proof fn lemma_one_outcome_per_stanza(lines: Seq<Seq<u8>>)
    ensures
        outcomes_of(lines).len() == scan(lines).len(),
        outcomes_of(lines).len() == stanza_count(lines),
        forall|k: int|
            0 <= k < scan(lines).len() ==> #[trigger] outcomes_of(lines)[k] == parse(
                scan(lines)[k],
            ),
{
    lemma_scan_counts_stanzas(lines);
}

/// A dump of blank lines only has no block and no outcome.
pub proof fn lemma_blank_dump_has_no_outcome(lines: Seq<Seq<u8>>)
    requires
        forall|i: int| 0 <= i < lines.len() ==> is_blank(#[trigger] lines[i]),
    ensures
        scan(lines).len() == 0,
        outcomes_of(lines).len() == 0,
{
    lemma_blank_dump_is_empty(lines);
}

/// Applying a function to each item of two rearrangements of the same items
/// gives two rearrangements of the same results.
pub proof fn lemma_map_rearranged<A, B>(a: Seq<A>, b: Seq<A>, f: spec_fn(A) -> B)
    requires
        is_rearrangement(a, b),
    ensures
        is_rearrangement(a.map_values(f), b.map_values(f)),
    decreases a.len(),
{
    a.to_multiset_ensures();
    b.to_multiset_ensures();
    let fa = a.map_values(f);
    let fb = b.map_values(f);
    if a.len() == 0 {
        assert(fa =~= fb);
    } else {
        let last = a.len() - 1;
        let x = a[last];
        assert(a.contains(x));
        assert(a.to_multiset().count(x) > 0);
        assert(b.to_multiset().count(x) > 0);
        assert(b.contains(x));
        let j = choose|j: int| 0 <= j < b.len() && b[j] == x;
        let a1 = a.remove(last);
        let b1 = b.remove(j);
        assert(a1.to_multiset() =~= b1.to_multiset());
        lemma_map_rearranged(a1, b1, f);
        fa.to_multiset_ensures();
        fb.to_multiset_ensures();
        assert(fa.remove(last) =~= a1.map_values(f));
        assert(fb.remove(j) =~= b1.map_values(f));
        let y = f(x);
        assert(fa[last] == y && fb[j] == y);
        assert(fa.contains(y));
        assert(fb.contains(y));
        assert(fa.to_multiset().count(y) > 0);
        assert(fb.to_multiset().count(y) > 0);
        let ma = fa.to_multiset();
        let mb = fb.to_multiset();
        assert(ma.remove(y) == mb.remove(y));
        assert forall|v: B| ma.count(v) == mb.count(v) by {
            assert(ma.remove(y).count(v) == mb.remove(y).count(v));
        }
        assert(ma =~= mb);
    }
}

/// The outcomes do not depend on the order in which the blocks are taken:
/// however many workers race for them, the outcomes that reach the sink are
/// those of a single worker that takes the blocks in file order, rearranged.
pub proof fn lemma_outcomes_ignore_order(blocks: Seq<RawEntryView>, taken: Seq<RawEntryView>)
    requires
        is_rearrangement(taken, blocks),
    ensures
        is_rearrangement(parse_each(taken), parse_each(blocks)),
        parse_each(taken).len() == blocks.len(),
{
    let f = |e: RawEntryView| parse(e);
    lemma_map_rearranged(taken, blocks, f);
    assert(parse_each(taken) =~= taken.map_values(f));
    assert(parse_each(blocks) =~= blocks.map_values(f));
    taken.to_multiset_ensures();
    blocks.to_multiset_ensures();
}

/// A record occurs among the records of some outcomes as often as it
/// occurs among the outcomes.
pub proof fn lemma_records_count(outcomes: Seq<ParseOutcomeView>, r: ParsedRecordView)
    ensures
        records_of(outcomes).to_multiset().count(r) == outcomes.to_multiset().count(
            ParseOutcomeView::Record(r),
        ),
    decreases outcomes.len(),
{
    broadcast use vstd::multiset::group_multiset_axioms;

    if outcomes.len() == 0 {
        outcomes.to_multiset_ensures();
        records_of(outcomes).to_multiset_ensures();
        assert(outcomes.to_multiset().len() == 0);
        assert(records_of(outcomes).to_multiset().len() == 0);
        assert(outcomes.to_multiset() =~= Multiset::empty());
        assert(records_of(outcomes).to_multiset() =~= Multiset::empty());
    } else {
        let before = outcomes.drop_last();
        lemma_records_count(before, r);
        before.to_multiset_ensures();
        records_of(before).to_multiset_ensures();
        assert(outcomes =~= before.push(outcomes.last()));
        assert(outcomes.to_multiset() =~= before.to_multiset().insert(outcomes.last()));
    }
}

/// What reaches the store does not depend on the order in which the
/// outcomes arrive: two arrival orders of the same outcomes yield the same
/// records, each as often, and as many errors.
pub proof fn lemma_stored_ignores_order(a: Seq<ParseOutcomeView>, b: Seq<ParseOutcomeView>)
    requires
        is_rearrangement(a, b),
    ensures
        is_rearrangement(records_of(a), records_of(b)),
        records_of(a).len() == records_of(b).len(),
        errors_of(a).len() == errors_of(b).len(),
{
    assert forall|r: ParsedRecordView|
        records_of(a).to_multiset().count(r) == records_of(b).to_multiset().count(r) by {
        lemma_records_count(a, r);
        lemma_records_count(b, r);
    }
    assert(records_of(a).to_multiset() =~= records_of(b).to_multiset());
    records_of(a).to_multiset_ensures();
    records_of(b).to_multiset_ensures();
    a.to_multiset_ensures();
    b.to_multiset_ensures();
    lemma_outcomes_split(a);
    lemma_outcomes_split(b);
}

/// The size of the worker pool changes nothing in what is stored: whatever
/// order the blocks of a dump are taken in, the records that reach the
/// store are those of the run that parses them in file order, each as
/// often, and the number of errors is the same.
pub proof fn lemma_pool_size_is_immaterial(lines: Seq<Seq<u8>>, taken: Seq<RawEntryView>)
    requires
        is_rearrangement(taken, scan(lines)),
    ensures
        is_rearrangement(records_of(parse_each(taken)), records_of(outcomes_of(lines))),
        errors_of(parse_each(taken)).len() == errors_of(outcomes_of(lines)).len(),
        parse_each(taken).len() == stanza_count(lines),
{
    lemma_outcomes_ignore_order(scan(lines), taken);
    lemma_stored_ignores_order(parse_each(taken), outcomes_of(lines));
    lemma_scan_counts_stanzas(lines);
}

/// Runs scanner and parser over a dump given as its lines, in file order.
pub fn process_lines(lines: &Vec<Vec<u8>>) -> (outcomes: Vec<ParseOutcome>)
    ensures
        outcome_views(outcomes@) == outcomes_of(views(lines@)),
{
    let blocks = scan_lines(lines);
    parse_all(&blocks)
}

/// Runs scanner and parser over a dump given as its bytes, in file order.
pub fn process_text(text: &[u8]) -> (outcomes: Vec<ParseOutcome>)
    ensures
        outcome_views(outcomes@) == outcomes_of(split(text@, LINE_FEED)),
{
    let blocks = scan_text(text);
    parse_all(&blocks)
}

/// Runs the three stages over a dump given as its lines, one after the
/// other: scans it, parses every block, and hands the outcomes to a sink
/// with batches of `batch_size` records.
pub fn ingest_lines(lines: &Vec<Vec<u8>>, batch_size: usize) -> (d: Delivery)
    ensures
        batch_records(d.batches@) == records_of(outcomes_of(views(lines@))),
        error_views(d.errors@) == errors_of(outcomes_of(views(lines@))),
        d.summary == (Summary {
            persisted: capped(records_of(outcomes_of(views(lines@))).len() as int),
            errors: capped(errors_of(outcomes_of(views(lines@))).len() as int),
        }),
        records_of(outcomes_of(views(lines@))).len() + errors_of(
            outcomes_of(views(lines@)),
        ).len() == stanza_count(views(lines@)),
{
    proof {
        lemma_one_outcome_per_stanza(views(lines@));
        lemma_outcomes_split(outcomes_of(views(lines@)));
    }
    deliver(process_lines(lines), batch_size)
}

/// Runs the three stages over a dump given as its bytes, one after the
/// other.
pub fn ingest_text(text: &[u8], batch_size: usize) -> (d: Delivery)
    ensures
        batch_records(d.batches@) == records_of(outcomes_of(split(text@, LINE_FEED))),
        error_views(d.errors@) == errors_of(outcomes_of(split(text@, LINE_FEED))),
        d.summary == (Summary {
            persisted: capped(records_of(outcomes_of(split(text@, LINE_FEED))).len() as int),
            errors: capped(errors_of(outcomes_of(split(text@, LINE_FEED))).len() as int),
        }),
        records_of(outcomes_of(split(text@, LINE_FEED))).len() + errors_of(
            outcomes_of(split(text@, LINE_FEED)),
        ).len() == stanza_count(split(text@, LINE_FEED)),
{
    proof {
        lemma_one_outcome_per_stanza(split(text@, LINE_FEED));
        lemma_outcomes_split(outcomes_of(split(text@, LINE_FEED)));
    }
    deliver(process_text(text), batch_size)
}

} // verus!
