//! The parser: from a raw block to a typed record or a parse error.
//!
//! A block is classified by the key of its first attribute, held against
//! the schema of its class, and then read field by field. Whatever is wrong
//! with it becomes a parse error that names the first fault: the first rule
//! of the schema that the block breaks, or else a range that cannot be read.

use crate::addr::{
    lemma_range_bounds_ordered, parse_range, range_bounds, Family, RangeError, RangeView,
};
use crate::class::{class_of, classify, ObjectClass};
use crate::entry::{entry_views, values_of, AttributeView, RawEntry, RawEntryView};
use crate::error::{ParseError, ParseErrorView, ParseReason};
use crate::record::{
    mntner_record, outcome_views, person_record, range_record, role_record, route_record,
    text_of, MntnerRecord, ParseOutcome, ParseOutcomeView, ParsedRecord, ParsedRecordView,
    PersonRecord, RangeRecord, RoleRecord, RouteRecord,
};
use crate::schema::{
    check_schema, first_violation, lemma_mntner_schema_head, lemma_no_violation,
    lemma_person_schema_head, lemma_range_schema_head, lemma_role_schema_head,
    lemma_route_schema_head, need_one, rule_views, rule_violation, schema, schema_of, RuleView,
};
use crate::text::{word, word_bytes};
use vstd::prelude::*;

verus! {

/// The error that refuses a block.
pub open spec fn refusal(
    class: ObjectClass,
    entry: RawEntryView,
    reason: ParseReason,
    attribute: Seq<u8>,
) -> ParseOutcomeView {
    ParseOutcomeView::Error(ParseErrorView { class, offset: entry.offset, reason, attribute })
}

/// The reason that a range error stands for.
pub open spec fn range_reason(e: RangeError) -> ParseReason {
    match e {
        RangeError::Malformed => ParseReason::MalformedRange,
        RangeError::Inverted => ParseReason::InvertedRange,
    }
}

/// The key of the attribute that names a class.
pub open spec fn class_key(class: ObjectClass) -> Seq<char> {
    match class {
        ObjectClass::Inetnum => "inetnum"@,
        ObjectClass::Inet6num => "inet6num"@,
        ObjectClass::Mntner => "mntner"@,
        ObjectClass::Role => "role"@,
        ObjectClass::Person => "person"@,
        ObjectClass::Route => "route"@,
        ObjectClass::Unknown => Seq::empty(),
    }
}

/// The outcome for a block of a range class that keeps its schema: the
/// record around the range that its class key spells, or the error that
/// refuses the range.
pub open spec fn range_outcome(class: ObjectClass, family: Family, entry: RawEntryView) -> ParseOutcomeView {
    match range_bounds(family, text_of(entry.attributes, class_key(class))) {
        Ok(bounds) => {
            let record = range_record(
                RangeView { family, first: bounds.0, last: bounds.1 },
                entry.attributes,
            );
            ParseOutcomeView::Record(
                if class == ObjectClass::Inetnum {
                    ParsedRecordView::Inetnum(record)
                } else {
                    ParsedRecordView::Inet6num(record)
                },
            )
        },
        Err(e) => refusal(class, entry, range_reason(e), word(class_key(class))),
    }
}

/// The outcome of parsing a block as an object of the given class.
pub open spec fn parse_as(class: ObjectClass, entry: RawEntryView) -> ParseOutcomeView {
    let rules = schema_of(class);
    match first_violation(entry.attributes, rules, 0) {
        Some(fault) => refusal(class, entry, fault.1, rules[fault.0].key),
        None => match class {
            ObjectClass::Inetnum => range_outcome(class, Family::V4, entry),
            ObjectClass::Inet6num => range_outcome(class, Family::V6, entry),
            ObjectClass::Mntner => ParseOutcomeView::Record(
                ParsedRecordView::Mntner(mntner_record(entry.attributes)),
            ),
            ObjectClass::Role => ParseOutcomeView::Record(
                ParsedRecordView::Role(role_record(entry.attributes)),
            ),
            ObjectClass::Person => ParseOutcomeView::Record(
                ParsedRecordView::Person(person_record(entry.attributes)),
            ),
            ObjectClass::Route => ParseOutcomeView::Record(
                ParsedRecordView::Route(route_record(entry.attributes)),
            ),
            ObjectClass::Unknown => refusal(
                class,
                entry,
                ParseReason::UnknownClass,
                Seq::empty(),
            ),
        },
    }
}

/// The outcome of parsing a block: it is parsed as an object of its class.
pub open spec fn parse(entry: RawEntryView) -> ParseOutcomeView {
    parse_as(class_of(entry), entry)
}

/// The outcomes of parsing each block of a sequence, in the same order.
pub open spec fn parse_each(entries: Seq<RawEntryView>) -> Seq<ParseOutcomeView> {
    Seq::new(entries.len(), |i: int| parse(entries[i]))
}

/// The bounds of every range record are in order, and neither exceeds the
/// largest address of the family of its class.
pub proof fn lemma_range_records_ordered(class: ObjectClass, entry: RawEntryView)
    ensures
        match parse_as(class, entry) {
            ParseOutcomeView::Record(ParsedRecordView::Inetnum(r)) => r.range.family == Family::V4
                && r.range.first <= r.range.last <= 0xffff_ffff,
            ParseOutcomeView::Record(ParsedRecordView::Inet6num(r)) => r.range.family
                == Family::V6 && r.range.first <= r.range.last,
            _ => true,
        },
{
    lemma_range_bounds_ordered(Family::V4, text_of(entry.attributes, class_key(class)));
    lemma_range_bounds_ordered(Family::V6, text_of(entry.attributes, class_key(class)));
}

/// A block parsed as an object of a known class that lacks the attribute
/// that names the class is refused: the outcome is the error that reports
/// that attribute as missing, never a record.
pub proof fn lemma_missing_class_key(class: ObjectClass, entry: RawEntryView)
    requires
        class != ObjectClass::Unknown,
        values_of(entry.attributes, word(class_key(class))).len() == 0,
    ensures
        parse_as(class, entry) == refusal(
            class,
            entry,
            ParseReason::MissingAttribute,
            word(class_key(class)),
        ),
{
    lemma_class_key_rule(class);
    let rules = schema_of(class);
    assert(rule_violation(entry.attributes, rules[0]) == Some(ParseReason::MissingAttribute));
}

/// The first rule of the schema of a known class is that of its class key:
/// a mandatory, single-valued attribute.
pub proof fn lemma_class_key_rule(class: ObjectClass)
    requires
        class != ObjectClass::Unknown,
    ensures
        schema_of(class).len() > 0,
        schema_of(class)[0] == need_one(class_key(class)),
{
    match class {
        ObjectClass::Inetnum => lemma_range_schema_head("inetnum"@),
        ObjectClass::Inet6num => lemma_range_schema_head("inet6num"@),
        ObjectClass::Mntner => lemma_mntner_schema_head(),
        ObjectClass::Role => lemma_role_schema_head(),
        ObjectClass::Person => lemma_person_schema_head(),
        ObjectClass::Route => lemma_route_schema_head(),
        ObjectClass::Unknown => {},
    }
}

/// A block becomes a record only if it keeps every rule of the schema of
/// its class: each mandatory attribute occurs, and each single-valued
/// attribute occurs at most once.
pub proof fn lemma_records_keep_schema(class: ObjectClass, entry: RawEntryView)
    requires
        parse_as(class, entry) is Record,
    ensures
        class != ObjectClass::Unknown,
        forall|k: int|
            0 <= k < schema_of(class).len() ==> {
                let rule = #[trigger] schema_of(class)[k];
                let count = values_of(entry.attributes, rule.key).len();
                (rule.mandatory ==> count >= 1) && (!rule.multiple ==> count <= 1)
            },
{
    lemma_no_violation(entry.attributes, schema_of(class), 0);
}

/// The class that a record is tagged with is the class it was parsed as,
/// and an error names that class too.
pub proof fn lemma_outcome_class(class: ObjectClass, entry: RawEntryView)
    ensures
        match parse_as(class, entry) {
            ParseOutcomeView::Record(r) => r.class() == class,
            ParseOutcomeView::Error(e) => e.class == class && e.offset == entry.offset,
        },
{
}

/// Two lists of attributes hold the same values under every key, in the
/// same order.
pub open spec fn same_values(a: Seq<AttributeView>, b: Seq<AttributeView>) -> bool {
    forall|key: Seq<u8>| #[trigger] values_of(a, key) == values_of(b, key)
}

/// Which rule a block breaks first depends on its attributes only through
/// the values that they hold under each key.
pub proof fn lemma_violation_ignores_order(
    a: Seq<AttributeView>,
    b: Seq<AttributeView>,
    rules: Seq<RuleView>,
    i: int,
)
    requires
        same_values(a, b),
    ensures
        first_violation(a, rules, i) == first_violation(b, rules, i),
    decreases rules.len() - i,
{
    if 0 <= i < rules.len() {
        assert(values_of(a, rules[i].key) == values_of(b, rules[i].key));
        lemma_violation_ignores_order(a, b, rules, i + 1);
    }
}

/// The order of the attributes of a block matters only among attributes
/// with the same key: two blocks at the same offset whose attributes hold
/// the same values under every key, in the same order, have the same
/// outcome when parsed as objects of the same class.
pub proof fn lemma_outcome_ignores_order_across_keys(
    class: ObjectClass,
    a: RawEntryView,
    b: RawEntryView,
)
    requires
        a.offset == b.offset,
        same_values(a.attributes, b.attributes),
    ensures
        parse_as(class, a) == parse_as(class, b),
{
    lemma_violation_ignores_order(a.attributes, b.attributes, schema_of(class), 0);
    lemma_records_ignore_order(a.attributes, b.attributes);
    assert(values_of(a.attributes, word(class_key(class))) == values_of(
        b.attributes,
        word(class_key(class)),
    ));
}

/// The records that two lists of attributes spell are the same if the
/// lists hold the same values under every key, in the same order.
pub proof fn lemma_records_ignore_order(a: Seq<AttributeView>, b: Seq<AttributeView>)
    requires
        same_values(a, b),
    ensures
        forall|range: RangeView| #[trigger] range_record(range, a) == range_record(range, b),
        mntner_record(a) == mntner_record(b),
        person_record(a) == person_record(b),
        role_record(a) == role_record(b),
        route_record(a) == route_record(b),
{
    assert forall|key: Seq<char>|
        #![trigger word(key)]
        values_of(a, word(key)) == values_of(b, word(key)) by {}
}

/// The record of a block of a range class that keeps its schema.
fn read_range(class: ObjectClass, family: Family, key: &'static str, entry: &RawEntry) -> (o:
    ParseOutcome)
    requires
        class == ObjectClass::Inetnum && family == Family::V4 || class == ObjectClass::Inet6num
            && family == Family::V6,
        key@ == class_key(class),
    ensures
        o@ == range_outcome(class, family, entry@),
{
    let text = entry.text(key);
    match parse_range(family, text.as_slice()) {
        Ok(range) => {
            let record = RangeRecord::read(range, entry);
            match class {
                ObjectClass::Inetnum => ParseOutcome::Record(ParsedRecord::Inetnum(record)),
                _ => ParseOutcome::Record(ParsedRecord::Inet6num(record)),
            }
        },
        Err(e) => {
            let reason = match e {
                RangeError::Malformed => ParseReason::MalformedRange,
                RangeError::Inverted => ParseReason::InvertedRange,
            };
            ParseOutcome::Error(
                ParseError { class, offset: entry.offset, reason, attribute: word_bytes(key) },
            )
        },
    }
}

/// Parses a block as an object of the given class.
pub fn parse_entry_as(class: ObjectClass, entry: &RawEntry) -> (o: ParseOutcome)
    ensures
        o@ == parse_as(class, entry@),
{
    let rules = schema(class);
    match check_schema(entry, &rules) {
        Some((i, reason)) => {
            proof {
                lemma_no_violation(entry@.attributes, rule_views(rules@), 0);
                assert(rule_views(rules@)[i as int] == rules@[i as int]@);
            }
            ParseOutcome::Error(
                ParseError {
                    class,
                    offset: entry.offset,
                    reason,
                    attribute: word_bytes(rules[i].key),
                },
            )
        },
        None => match class {
            ObjectClass::Inetnum => read_range(class, Family::V4, "inetnum", entry),
            ObjectClass::Inet6num => read_range(class, Family::V6, "inet6num", entry),
            ObjectClass::Mntner => ParseOutcome::Record(
                ParsedRecord::Mntner(MntnerRecord::read(entry)),
            ),
            ObjectClass::Role => ParseOutcome::Record(ParsedRecord::Role(RoleRecord::read(entry))),
            ObjectClass::Person => ParseOutcome::Record(
                ParsedRecord::Person(PersonRecord::read(entry)),
            ),
            ObjectClass::Route => ParseOutcome::Record(
                ParsedRecord::Route(RouteRecord::read(entry)),
            ),
            ObjectClass::Unknown => ParseOutcome::Error(
                ParseError {
                    class,
                    offset: entry.offset,
                    reason: ParseReason::UnknownClass,
                    attribute: Vec::new(),
                },
            ),
        },
    }
}

/// Parses a block: classifies it and parses it as an object of its class.
/// Every block has exactly one outcome.
pub fn parse_entry(entry: &RawEntry) -> (o: ParseOutcome)
    ensures
        o@ == parse(entry@),
{
    parse_entry_as(classify(entry), entry)
}

/// Parses every block of a sequence, in order: one outcome for each block.
pub fn parse_all(entries: &Vec<RawEntry>) -> (outcomes: Vec<ParseOutcome>)
    ensures
        outcome_views(outcomes@) == parse_each(entry_views(entries@)),
{
    let mut outcomes: Vec<ParseOutcome> = Vec::new();
    let mut i: usize = 0;
    while i < entries.len()
        invariant
            i <= entries@.len(),
            outcomes@.len() == i,
            forall|k: int| 0 <= k < i ==> (#[trigger] outcomes@[k])@ == parse(entries@[k]@),
        decreases entries@.len() - i,
    {
        let o = parse_entry(&entries[i]);
        outcomes.push(o);
        i += 1;
    }
    assert(outcome_views(outcomes@) =~= parse_each(entry_views(entries@)));
    outcomes
}

} // verus!
