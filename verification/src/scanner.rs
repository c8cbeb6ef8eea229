//! The entry scanner: groups the lines of a dump into raw entry blocks.
//!
//! A block is a maximal run of lines that are not blank. Within a block a
//! line that starts with whitespace continues the value of the attribute
//! before it, a line with a colon after a key starts a new attribute, and
//! any other line (a comment, say) belongs to the block without adding to it.

use crate::entry::{
    attribute_views, entry_views, lemma_attribute_views_push, lemma_entry_views_push,
    optional_entry_view, Attribute, AttributeView, RawEntry, RawEntryView,
};
use crate::text::{
    byte_is_space, find_byte, is_blank, is_space, line_is_blank, position, split, split_bytes,
    trim, trimmed, views, COLON, LINE_FEED, SPACE,
};
use vstd::prelude::*;
use vstd::slice::*;

verus! {

/// What a line means to the scanner.
#[derive(Clone, Copy, Debug, PartialEq, Eq, Structural)]
pub enum LineKind {
    /// Nothing but whitespace: the line ends the block before it.
    Blank,
    /// Leading whitespace, then content: the line continues a value.
    Continuation,
    /// A key, a colon and possibly a value.
    Attribute,
    /// Anything else.
    Other,
}

/// The kind of a line.
pub open spec fn line_kind(line: Seq<u8>) -> LineKind {
    let colon = find_byte(line, COLON, 0);
    if is_blank(line) {
        LineKind::Blank
    } else if is_space(line[0]) {
        LineKind::Continuation
    } else if colon < line.len() && trimmed(line.subrange(0, colon)).len() > 0 {
        LineKind::Attribute
    } else {
        LineKind::Other
    }
}

/// The attribute that an attribute line spells: the trimmed text before the
/// first colon and the trimmed text after it.
pub open spec fn line_attribute(line: Seq<u8>) -> AttributeView {
    let colon = find_byte(line, COLON, 0);
    AttributeView {
        key: trimmed(line.subrange(0, colon)),
        value: trimmed(line.subrange(colon + 1, line.len() as int)),
    }
}

/// The attributes of a block after a continuation line: the value of the
/// last attribute grows by a single space and the trimmed line. A block
/// without attributes stays as it is.
pub open spec fn continue_last(attributes: Seq<AttributeView>, line: Seq<u8>) -> Seq<
    AttributeView,
> {
    if attributes.len() == 0 {
        attributes
    } else {
        let last = attributes.last();
        attributes.drop_last().push(
            AttributeView { key: last.key, value: last.value + seq![SPACE] + trimmed(line) },
        )
    }
}

/// One step of the scanner: from the pending block and a line, with the
/// offset at which the line stands, to the new pending block and the block
/// that the line completed, if any.
pub open spec fn step(pending: Option<RawEntryView>, line: Seq<u8>, offset: u64) -> (
    Option<RawEntryView>,
    Option<RawEntryView>,
) {
    let open = match pending {
        Some(e) => e,
        None => RawEntryView { offset, attributes: Seq::empty() },
    };
    match line_kind(line) {
        LineKind::Blank => (None, pending),
        LineKind::Continuation => (
            Some(
                RawEntryView {
                    offset: open.offset,
                    attributes: continue_last(open.attributes, line),
                },
            ),
            None,
        ),
        LineKind::Attribute => (
            Some(
                RawEntryView {
                    offset: open.offset,
                    attributes: open.attributes.push(line_attribute(line)),
                },
            ),
            None,
        ),
        LineKind::Other => (Some(open), None),
    }
}

/// What the source of lines yields: a line with the offset at which it
/// stands, the end of the dump, or a failure to read on.
#[derive(Clone, Copy, Debug)]
pub enum ScanEvent<'a> {
    Line(&'a [u8], u64),
    End,
    Failure,
}

/// The mathematical content of a [`ScanEvent`].
pub enum ScanEventView {
    Line(Seq<u8>, u64),
    End,
    Failure,
}

impl<'a> View for ScanEvent<'a> {
    type V = ScanEventView;

    open spec fn view(&self) -> ScanEventView {
        match self {
            ScanEvent::Line(line, offset) => ScanEventView::Line(line@, *offset),
            ScanEvent::End => ScanEventView::End,
            ScanEvent::Failure => ScanEventView::Failure,
        }
    }
}

/// What is due after an event: a block to send, if one was completed, and
/// whether the channel of blocks is to be closed after that.
#[derive(Debug, PartialEq, Eq)]
pub struct ScanAction {
    pub emit: Option<RawEntry>,
    pub close: bool,
}

/// The scanner as a machine of events: a line is a step; the end of the
/// dump completes the pending block and closes; a failure closes without
/// completing anything, so that no part of a block is ever sent. The result
/// holds the new pending block, the block to send and whether to close.
pub open spec fn on_event(pending: Option<RawEntryView>, event: ScanEventView) -> (
    Option<RawEntryView>,
    Option<RawEntryView>,
    bool,
) {
    match event {
        ScanEventView::Line(line, offset) => (
            step(pending, line, offset).0,
            step(pending, line, offset).1,
            false,
        ),
        ScanEventView::End => (None, pending, true),
        ScanEventView::Failure => (None, None, true),
    }
}

/// A sequence of at most one block.
pub open spec fn emitted(block: Option<RawEntryView>) -> Seq<RawEntryView> {
    match block {
        Some(e) => seq![e],
        None => Seq::empty(),
    }
}

/// The blocks that the lines from index `i` on produce when the scanner
/// holds `pending` before them. Each line's offset is its index. The end of
/// the lines completes a pending block.
pub open spec fn scan_from(pending: Option<RawEntryView>, lines: Seq<Seq<u8>>, i: int) -> Seq<
    RawEntryView,
>
    decreases lines.len() - i,
{
    if 0 <= i < lines.len() {
        let (next, out) = step(pending, lines[i], i as u64);
        emitted(out) + scan_from(next, lines, i + 1)
    } else {
        emitted(pending)
    }
}

/// The blocks of a dump given as its lines, in file order.
pub open spec fn scan(lines: Seq<Seq<u8>>) -> Seq<RawEntryView> {
    scan_from(None, lines, 0)
}

/// Line `i` is the first line of a stanza: it is not blank, and no line that
/// is not blank stands right before it.
pub open spec fn starts_stanza(lines: Seq<Seq<u8>>, i: int) -> bool {
    0 <= i < lines.len() && !is_blank(lines[i]) && (i == 0 || is_blank(lines[i - 1]))
}

/// The number of stanzas that start at line `i` or later.
pub open spec fn stanzas_from(lines: Seq<Seq<u8>>, i: int) -> nat
    decreases lines.len() - i,
{
    if 0 <= i < lines.len() {
        stanzas_from(lines, i + 1) + if starts_stanza(lines, i) {
            1nat
        } else {
            0nat
        }
    } else {
        0
    }
}

/// The number of blank-line-delimited stanzas of a dump.
pub open spec fn stanza_count(lines: Seq<Seq<u8>>) -> nat {
    stanzas_from(lines, 0)
}

/// The scanner emits one block for each stanza of the dump, the last one
/// included when no blank line follows it.
pub proof fn lemma_scan_counts_stanzas(lines: Seq<Seq<u8>>)
    ensures
        scan(lines).len() == stanza_count(lines),
{
    lemma_scan_from_counts(None, lines, 0);
}

/// The count behind [`lemma_scan_counts_stanzas`], from any line on: a block
/// is pending exactly when the line before is not blank, and it is counted
/// with the stanzas that start later.
pub proof fn lemma_scan_from_counts(pending: Option<RawEntryView>, lines: Seq<Seq<u8>>, i: int)
    requires
        0 <= i <= lines.len(),
        pending is Some <==> (i > 0 && !is_blank(lines[i - 1])),
    ensures
        scan_from(pending, lines, i).len() == stanzas_from(lines, i) + if pending is Some {
            1nat
        } else {
            0nat
        },
    decreases lines.len() - i,
{
    if i < lines.len() {
        let (next, out) = step(pending, lines[i], i as u64);
        lemma_scan_from_counts(next, lines, i + 1);
    }
}

/// A dump has no more blocks than lines.
pub proof fn lemma_scan_is_bounded(lines: Seq<Seq<u8>>)
    ensures
        scan(lines).len() <= lines.len(),
{
    lemma_scan_counts_stanzas(lines);
    lemma_stanzas_are_bounded(lines, 0);
}

/// No more stanzas start at line `i` or later than there are such lines.
pub proof fn lemma_stanzas_are_bounded(lines: Seq<Seq<u8>>, i: int)
    requires
        0 <= i <= lines.len(),
    ensures
        stanzas_from(lines, i) <= lines.len() - i,
    decreases lines.len() - i,
{
    if i < lines.len() {
        lemma_stanzas_are_bounded(lines, i + 1);
    }
}

/// A dump of blank lines only holds no block.
pub proof fn lemma_blank_dump_is_empty(lines: Seq<Seq<u8>>)
    requires
        forall|i: int| 0 <= i < lines.len() ==> is_blank(#[trigger] lines[i]),
    ensures
        scan(lines).len() == 0,
{
    lemma_blank_lines_emit_nothing(lines, 0);
}

/// Blank lines leave a scanner that holds no block as it is.
pub proof fn lemma_blank_lines_emit_nothing(lines: Seq<Seq<u8>>, i: int)
    requires
        0 <= i <= lines.len(),
        forall|k: int| i <= k < lines.len() ==> is_blank(#[trigger] lines[k]),
    ensures
        scan_from(None, lines, i).len() == 0,
    decreases lines.len() - i,
{
    if i < lines.len() {
        assert(is_blank(lines[i]));
        lemma_blank_lines_emit_nothing(lines, i + 1);
    }
}

/// A continuation line adds no attribute and completes no block: it extends
/// the value of the last attribute of the pending block by a space and its
/// own trimmed content, and leaves every other attribute as it was.
pub proof fn lemma_continuation_extends_last(block: RawEntryView, line: Seq<u8>, offset: u64)
    requires
        line_kind(line) == LineKind::Continuation,
        block.attributes.len() > 0,
    ensures
        step(Some(block), line, offset).1 is None,
        step(Some(block), line, offset).0 matches Some(next) && {
            &&& next.offset == block.offset
            &&& next.attributes.len() == block.attributes.len()
            &&& next.attributes.last().key == block.attributes.last().key
            &&& next.attributes.last().value == block.attributes.last().value + seq![SPACE]
                + trimmed(line)
            &&& forall|k: int|
                0 <= k < block.attributes.len() - 1 ==> next.attributes[k] == block.attributes[k]
        },
{
}

/// Every block starts at the first line of a stanza, and the blocks come in
/// file order.
pub proof fn lemma_scan_offsets(lines: Seq<Seq<u8>>)
    requires
        lines.len() <= u64::MAX,
    ensures
        forall|k: int|
            0 <= k < scan(lines).len() ==> starts_stanza(lines, (#[trigger] scan(lines)[k]).offset as int),
        forall|j: int, k: int|
            0 <= j < k < scan(lines).len() ==> scan(lines)[j].offset < scan(lines)[k].offset,
{
    lemma_scan_from_offsets(None, lines, 0);
}

/// The statement of [`lemma_scan_offsets`] from any line on.
pub proof fn lemma_scan_from_offsets(pending: Option<RawEntryView>, lines: Seq<Seq<u8>>, i: int)
    requires
        0 <= i <= lines.len() <= u64::MAX,
        pending is Some <==> (i > 0 && !is_blank(lines[i - 1])),
        pending matches Some(e) ==> e.offset < i && starts_stanza(lines, e.offset as int),
    ensures
        forall|k: int|
            0 <= k < scan_from(pending, lines, i).len() ==> starts_stanza(
                lines,
                (#[trigger] scan_from(pending, lines, i)[k]).offset as int,
            ),
        forall|j: int, k: int|
            0 <= j < k < scan_from(pending, lines, i).len() ==> scan_from(pending, lines, i)[j].offset
                < scan_from(pending, lines, i)[k].offset,
        forall|k: int|
            0 <= k < scan_from(pending, lines, i).len() ==> match pending {
                Some(e) => k == 0 && (#[trigger] scan_from(pending, lines, i)[k]).offset
                    == e.offset || scan_from(pending, lines, i)[k].offset >= i,
                None => scan_from(pending, lines, i)[k].offset >= i,
            },
    decreases lines.len() - i,
{
    if i < lines.len() {
        let (next, out) = step(pending, lines[i], i as u64);
        lemma_scan_from_offsets(next, lines, i + 1);
        let rest = scan_from(next, lines, i + 1);
        let all = scan_from(pending, lines, i);
        assert(all == emitted(out) + rest);
        assert forall|k: int| 0 <= k < all.len() implies starts_stanza(
            lines,
            (#[trigger] all[k]).offset as int,
        ) by {
            if k >= emitted(out).len() {
                assert(all[k] == rest[k - emitted(out).len()]);
            }
        }
        assert forall|k: int| 0 <= k < all.len() implies match pending {
            Some(e) => k == 0 && (#[trigger] all[k]).offset == e.offset || all[k].offset >= i,
            None => all[k].offset >= i,
        } by {
            if k >= emitted(out).len() {
                assert(all[k] == rest[k - emitted(out).len()]);
            }
        }
        assert forall|j: int, k: int| 0 <= j < k < all.len() implies all[j].offset
            < all[k].offset by {
            assert(all[k] == rest[k - emitted(out).len()]);
            if j >= emitted(out).len() {
                assert(all[j] == rest[j - emitted(out).len()]);
            }
        }
    }
}

/// The events of reading the lines of a dump: each line with its index as
/// its offset.
pub open spec fn line_events(lines: Seq<Seq<u8>>) -> Seq<ScanEventView> {
    Seq::new(lines.len(), |i: int| ScanEventView::Line(lines[i], i as u64))
}

/// The blocks that the scanner sends while it handles the events from index
/// `i` on, up to the first event that closes.
pub open spec fn sent_during(pending: Option<RawEntryView>, events: Seq<ScanEventView>, i: int) -> Seq<
    RawEntryView,
>
    decreases events.len() - i,
{
    if 0 <= i < events.len() {
        let after = on_event(pending, events[i]);
        if after.2 {
            emitted(after.1)
        } else {
            emitted(after.1) + sent_during(after.0, events, i + 1)
        }
    } else {
        Seq::empty()
    }
}

/// A scanner that reads a dump to its end sends the blocks of the dump.
pub proof fn lemma_whole_dump_is_sent(lines: Seq<Seq<u8>>)
    ensures
        sent_during(None, line_events(lines).push(ScanEventView::End), 0) == scan(lines),
{
    lemma_rest_of_dump_is_sent(None, lines, 0);
}

/// The statement of [`lemma_whole_dump_is_sent`] from any line on.
pub proof fn lemma_rest_of_dump_is_sent(pending: Option<RawEntryView>, lines: Seq<Seq<u8>>, i: int)
    requires
        0 <= i <= lines.len(),
    ensures
        sent_during(pending, line_events(lines).push(ScanEventView::End), i) == scan_from(
            pending,
            lines,
            i,
        ),
    decreases lines.len() - i,
{
    let events = line_events(lines).push(ScanEventView::End);
    if i < lines.len() {
        assert(events[i] == ScanEventView::Line(lines[i], i as u64));
        lemma_rest_of_dump_is_sent(step(pending, lines[i], i as u64).0, lines, i + 1);
    } else {
        assert(events[i] == ScanEventView::End);
    }
}

/// A scanner that fails to read on after some lines has sent only whole
/// blocks of the dump: what it sent is the beginning of what it would have
/// sent had it read the dump to its end. The block that was pending at the
/// failure is not sent.
pub proof fn lemma_failure_sends_whole_blocks(lines: Seq<Seq<u8>>, read: int)
    requires
        0 <= read <= lines.len(),
    ensures
        sent_during(
            None,
            line_events(lines.take(read)).push(ScanEventView::Failure),
            0,
        ).is_prefix_of(scan(lines)),
{
    lemma_failure_sends_a_prefix(None, lines, read, 0);
}

/// The statement of [`lemma_failure_sends_whole_blocks`] from any line on.
pub proof fn lemma_failure_sends_a_prefix(
    pending: Option<RawEntryView>,
    lines: Seq<Seq<u8>>,
    read: int,
    i: int,
)
    requires
        0 <= i <= read <= lines.len(),
    ensures
        sent_during(
            pending,
            line_events(lines.take(read)).push(ScanEventView::Failure),
            i,
        ).is_prefix_of(scan_from(pending, lines, i)),
    decreases read - i,
{
    let events = line_events(lines.take(read)).push(ScanEventView::Failure);
    if i < read {
        assert(lines.take(read)[i] == lines[i]);
        assert(events[i] == ScanEventView::Line(lines[i], i as u64));
        let after = step(pending, lines[i], i as u64);
        lemma_failure_sends_a_prefix(after.0, lines, read, i + 1);
        let sent = sent_during(after.0, events, i + 1);
        let all = scan_from(after.0, lines, i + 1);
        assert(emitted(after.1) + sent =~= (emitted(after.1) + all).subrange(
            0,
            (emitted(after.1) + sent).len() as int,
        ));
    } else {
        assert(events[i] == ScanEventView::Failure);
        assert(sent_during(pending, events, i) =~= Seq::empty());
    }
}

/// The streaming scanner. It holds the block that is being accumulated, if
/// a line that is not blank has been seen since the last block ended.
#[derive(Debug)]
pub struct Scanner {
    pending: Option<RawEntry>,
}

/// The content of a scanner is the block that is pending, if there is one.
impl View for Scanner {
    type V = Option<RawEntryView>;

    closed spec fn view(&self) -> Option<RawEntryView> {
        optional_entry_view(self.pending)
    }
}

/// Appends the bytes of `src` to `dst`.
pub fn append_bytes(dst: &mut Vec<u8>, src: &[u8])
    ensures
        final(dst)@ == old(dst)@ + src@,
{
    let mut i: usize = 0;
    while i < src.len()
        invariant
            i <= src@.len(),
            dst@ == old(dst)@ + src@.subrange(0, i as int),
        decreases src@.len() - i,
    {
        dst.push(src[i]);
        i += 1;
        assert(dst@ =~= old(dst)@ + src@.subrange(0, i as int));
    }
    assert(src@.subrange(0, i as int) =~= src@);
}

/// Tells the kind of a line.
pub fn classify_line(line: &[u8]) -> (kind: LineKind)
    ensures
        kind == line_kind(line@),
{
    if line_is_blank(line) {
        return LineKind::Blank;
    }
    if byte_is_space(line[0]) {
        return LineKind::Continuation;
    }
    let colon = position(line, COLON, 0);
    if colon < line.len() {
        let key = trim(slice_subrange(line, 0, colon));
        if key.len() > 0 {
            return LineKind::Attribute;
        }
    }
    LineKind::Other
}

/// Cuts an attribute line at its first colon.
fn cut_attribute(line: &[u8]) -> (a: Attribute)
    requires
        line_kind(line@) == LineKind::Attribute,
    ensures
        a@ == line_attribute(line@),
{
    let end = line.len();
    let colon = position(line, COLON, 0);
    assert(colon < end);
    let key = trim(slice_subrange(line, 0, colon));
    let value = trim(slice_subrange(line, colon + 1, end));
    Attribute { key, value }
}

/// Reads the attribute that a line spells, if it is an attribute line.
pub fn read_attribute(line: &[u8]) -> (a: Option<Attribute>)
    ensures
        a is Some <==> line_kind(line@) == LineKind::Attribute,
        a matches Some(attribute) ==> attribute@ == line_attribute(line@),
{
    match classify_line(line) {
        LineKind::Attribute => Some(cut_attribute(line)),
        _ => None,
    }
}

impl Scanner {
    /// A scanner that has seen no line.
    pub fn new() -> (s: Scanner)
        ensures
            s@ == None::<RawEntryView>,
    {
        Scanner { pending: None }
    }

    /// Takes the next line of the dump, which stands at `offset`, and returns
    /// the block that it completed, if any.
    pub fn feed(&mut self, line: &[u8], offset: u64) -> (out: Option<RawEntry>)
        ensures
            (final(self)@, optional_entry_view(out)) == step(old(self)@, line@, offset),
    {
        let kind = classify_line(line);
        let pending = self.pending.take();
        match kind {
            LineKind::Blank => pending,
            _ => {
                let mut open = match pending {
                    Some(e) => e,
                    None => RawEntry::new(offset),
                };
                let ghost before = open@;
                match kind {
                    LineKind::Attribute => {
                        let a = cut_attribute(line);
                        proof {
                            lemma_attribute_views_push(open.attributes@, a);
                        }
                        open.attributes.push(a);
                    },
                    LineKind::Continuation => {
                        match open.attributes.pop() {
                            Some(last) => {
                                let ghost rest = open.attributes@;
                                let mut last = last;
                                let ghost old_last = last@;
                                let content = trim(line);
                                last.value.push(SPACE);
                                append_bytes(&mut last.value, content.as_slice());
                                proof {
                                    assert(last.value@ =~= old_last.value + seq![SPACE] + trimmed(
                                        line@,
                                    ));
                                    lemma_attribute_views_push(rest, last);
                                    assert(attribute_views(rest) =~= before.attributes.drop_last());
                                    assert(before.attributes.last() == old_last);
                                }
                                open.attributes.push(last);
                            },
                            None => {
                                assert(open@.attributes =~= before.attributes);
                            },
                        }
                    },
                    _ => {},
                }
                self.pending = Some(open);
                None
            },
        }
    }

    /// Handles one event of the source of lines and tells what is due.
    pub fn handle(&mut self, event: ScanEvent<'_>) -> (action: ScanAction)
        ensures
            (final(self)@, optional_entry_view(action.emit), action.close) == on_event(
                old(self)@,
                event@,
            ),
    {
        match event {
            ScanEvent::Line(line, offset) => ScanAction {
                emit: self.feed(line, offset),
                close: false,
            },
            ScanEvent::End => ScanAction { emit: self.pending.take(), close: true },
            ScanEvent::Failure => {
                self.pending = None;
                ScanAction { emit: None, close: true }
            },
        }
    }

    /// Ends the dump: returns the pending block, if there is one.
    pub fn finish(self) -> (out: Option<RawEntry>)
        ensures
            optional_entry_view(out) == self@,
    {
        self.pending
    }
}

/// Scans a dump given as its lines and returns its blocks in file order.
/// The offset of a block is the index of its first line.
pub fn scan_lines(lines: &Vec<Vec<u8>>) -> (blocks: Vec<RawEntry>)
    ensures
        entry_views(blocks@) == scan(views(lines@)),
{
    let mut blocks: Vec<RawEntry> = Vec::new();
    let mut scanner = Scanner::new();
    let mut i: usize = 0;
    assert(entry_views(blocks@) =~= Seq::<RawEntryView>::empty());
    while i < lines.len()
        invariant
            i <= lines@.len(),
            scan(views(lines@)) == entry_views(blocks@) + scan_from(
                scanner@,
                views(lines@),
                i as int,
            ),
        decreases lines@.len() - i,
    {
        let ghost before = blocks@;
        let ghost rest = scan_from(scanner@, views(lines@), i as int);
        let out = scanner.feed(lines[i].as_slice(), i as u64);
        proof {
            assert(views(lines@)[i as int] == lines@[i as int]@);
        }
        match out {
            Some(e) => {
                proof {
                    lemma_entry_views_push(before, e);
                    assert(entry_views(before).push(e@) + scan_from(
                        scanner@,
                        views(lines@),
                        i + 1,
                    ) =~= entry_views(before) + rest);
                }
                blocks.push(e);
            },
            None => {
                assert(rest =~= scan_from(scanner@, views(lines@), i + 1));
            },
        }
        i += 1;
    }
    let last = scanner.finish();
    match last {
        Some(e) => {
            proof {
                lemma_entry_views_push(blocks@, e);
                assert(entry_views(blocks@).push(e@) =~= entry_views(blocks@) + seq![e@]);
            }
            blocks.push(e);
        },
        None => {
            assert(entry_views(blocks@) + Seq::<RawEntryView>::empty() =~= entry_views(blocks@));
        },
    }
    blocks
}

/// Scans a dump given as its bytes: the lines are the pieces between line
/// feeds.
pub fn scan_text(text: &[u8]) -> (blocks: Vec<RawEntry>)
    ensures
        entry_views(blocks@) == scan(split(text@, LINE_FEED)),
{
    let lines = split_bytes(text, LINE_FEED);
    scan_lines(&lines)
}

} // verus!
