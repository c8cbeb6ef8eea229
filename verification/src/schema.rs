//! The attribute schema of each class: which attributes an object must
//! carry, which it may carry once only, and which hold a time stamp.
//!
//! The tables for `mntner`, `person`, `role` and `route` follow RFC 2622.
//! The range classes make only their class key mandatory: registries differ
//! in what else they require, and a dump is taken as it was published.
//! Attributes that a table does not name are allowed and ignored.

use crate::class::ObjectClass;
use crate::date::{parse_timestamp, timestamp};
use crate::entry::{values_of, AttributeView, RawEntry};
use crate::error::ParseReason;
use crate::text::{views, word};
use vstd::prelude::*;

verus! {

/// What the value of an attribute holds.
#[derive(Clone, Copy, Debug, PartialEq, Eq, Structural)]
pub enum ValueKind {
    /// Free text or a reference.
    Text,
    /// A time stamp.
    Timestamp,
}

/// The rule for one attribute of a class.
#[derive(Clone, Copy, Debug, PartialEq, Eq)]
pub struct AttrRule {
    /// The key of the attribute.
    pub key: &'static str,
    /// The attribute must occur.
    pub mandatory: bool,
    /// The attribute may occur more than once.
    pub multiple: bool,
    /// What its value holds.
    pub kind: ValueKind,
}

/// The mathematical content of an [`AttrRule`].
pub struct RuleView {
    pub key: Seq<u8>,
    pub mandatory: bool,
    pub multiple: bool,
    pub kind: ValueKind,
}

impl View for AttrRule {
    type V = RuleView;

    open spec fn view(&self) -> RuleView {
        RuleView {
            key: word(self.key@),
            mandatory: self.mandatory,
            multiple: self.multiple,
            kind: self.kind,
        }
    }
}

/// The contents of a vector of rules.
pub open spec fn rule_views(v: Seq<AttrRule>) -> Seq<RuleView> {
    Seq::new(v.len(), |i: int| v[i]@)
}

/// A mandatory, single-valued text attribute.
pub open spec fn need_one(key: Seq<char>) -> RuleView {
    RuleView { key: word(key), mandatory: true, multiple: false, kind: ValueKind::Text }
}

/// A mandatory, multi-valued text attribute.
pub open spec fn need_many(key: Seq<char>) -> RuleView {
    RuleView { key: word(key), mandatory: true, multiple: true, kind: ValueKind::Text }
}

/// An optional, single-valued text attribute.
pub open spec fn one(key: Seq<char>) -> RuleView {
    RuleView { key: word(key), mandatory: false, multiple: false, kind: ValueKind::Text }
}

/// An optional, multi-valued text attribute.
pub open spec fn many(key: Seq<char>) -> RuleView {
    RuleView { key: word(key), mandatory: false, multiple: true, kind: ValueKind::Text }
}

/// An optional, single-valued time stamp.
pub open spec fn moment(key: Seq<char>) -> RuleView {
    RuleView { key: word(key), mandatory: false, multiple: false, kind: ValueKind::Timestamp }
}

/// The schema of a range class whose class key is `key`.
pub open spec fn range_schema(key: Seq<char>) -> Seq<RuleView> {
    seq![
        need_one(key),
        one("netname"@),
        many("descr"@),
        many("country"@),
        many("language"@),
        one("org"@),
        many("admin-c"@),
        many("tech-c"@),
        one("status"@),
        many("mnt-by"@),
        one("source"@),
        many("remarks"@),
        moment("created"@),
        moment("last-modified"@),
    ]
}

/// The schema of the class `mntner`.
pub open spec fn mntner_schema() -> Seq<RuleView> {
    seq![
        need_one("mntner"@),
        need_one("descr"@),
        need_many("auth"@),
        need_many("upd-to"@),
        many("mnt-nfy"@),
        need_many("tech-c"@),
        many("admin-c"@),
        many("remarks"@),
        many("notify"@),
        need_many("mnt-by"@),
        need_many("changed"@),
        need_one("source"@),
    ]
}

/// The schema of the class `person`.
pub open spec fn person_schema() -> Seq<RuleView> {
    seq![
        need_one("person"@),
        need_one("nic-hdl"@),
        need_many("address"@),
        need_many("phone"@),
        many("fax-no"@),
        need_many("e-mail"@),
    ]
}

/// The schema of the class `role`.
pub open spec fn role_schema() -> Seq<RuleView> {
    seq![
        need_one("role"@),
        need_one("nic-hdl"@),
        many("trouble"@),
        need_many("address"@),
        need_many("phone"@),
        many("fax-no"@),
        need_many("e-mail"@),
    ]
}

/// The schema of the class `route`.
pub open spec fn route_schema() -> Seq<RuleView> {
    seq![
        need_one("route"@),
        need_one("origin"@),
        many("member-of"@),
        many("inject"@),
        one("components"@),
        one("aggr-bndry"@),
        one("aggr-mtd"@),
        one("export-comps"@),
        many("holes"@),
    ]
}

/// The schema of a class. The first rule is that of the attribute that
/// names the class.
pub open spec fn schema_of(class: ObjectClass) -> Seq<RuleView> {
    match class {
        ObjectClass::Inetnum => range_schema("inetnum"@),
        ObjectClass::Inet6num => range_schema("inet6num"@),
        ObjectClass::Mntner => mntner_schema(),
        ObjectClass::Person => person_schema(),
        ObjectClass::Role => role_schema(),
        ObjectClass::Route => route_schema(),
        ObjectClass::Unknown => Seq::empty(),
    }
}

/// The class that a schema belongs to is named by its first rule: a
/// mandatory, single-valued attribute.
pub proof fn lemma_range_schema_head(key: Seq<char>)
    ensures
        range_schema(key).len() == 14,
        range_schema(key)[0] == need_one(key),
{
}

/// The first rule of the schema of `mntner`.
pub proof fn lemma_mntner_schema_head()
    ensures
        mntner_schema().len() == 12,
        mntner_schema()[0] == need_one("mntner"@),
{
}

/// The first rule of the schema of `person`.
pub proof fn lemma_person_schema_head()
    ensures
        person_schema().len() == 6,
        person_schema()[0] == need_one("person"@),
{
}

/// The first rule of the schema of `role`.
pub proof fn lemma_role_schema_head()
    ensures
        role_schema().len() == 7,
        role_schema()[0] == need_one("role"@),
{
}

/// The first rule of the schema of `route`.
pub proof fn lemma_route_schema_head()
    ensures
        route_schema().len() == 9,
        route_schema()[0] == need_one("route"@),
{
}

/// Every value is a time stamp.
pub open spec fn all_timestamps(values: Seq<Seq<u8>>) -> bool {
    forall|i: int| 0 <= i < values.len() ==> (#[trigger] timestamp(values[i])) is Some
}

/// How a block breaks one rule, if it does: a mandatory attribute is
/// absent, a single-valued one occurs more than once, or a mandatory time
/// stamp cannot be read.
pub open spec fn rule_violation(attributes: Seq<AttributeView>, rule: RuleView) -> Option<
    ParseReason,
> {
    let values = values_of(attributes, rule.key);
    if rule.mandatory && values.len() == 0 {
        Some(ParseReason::MissingAttribute)
    } else if !rule.multiple && values.len() > 1 {
        Some(ParseReason::RepeatedAttribute)
    } else if rule.mandatory && rule.kind == ValueKind::Timestamp && !all_timestamps(values) {
        Some(ParseReason::MalformedDate)
    } else {
        None
    }
}

/// The first rule from index `i` on that the block breaks, with the reason.
pub open spec fn first_violation(
    attributes: Seq<AttributeView>,
    rules: Seq<RuleView>,
    i: int,
) -> Option<(int, ParseReason)>
    decreases rules.len() - i,
{
    if 0 <= i < rules.len() {
        match rule_violation(attributes, rules[i]) {
            Some(reason) => Some((i, reason)),
            None => first_violation(attributes, rules, i + 1),
        }
    } else {
        None
    }
}

/// A block that breaks no rule from index `i` on keeps each of them.
pub proof fn lemma_no_violation(attributes: Seq<AttributeView>, rules: Seq<RuleView>, i: int)
    requires
        0 <= i <= rules.len(),
    ensures
        first_violation(attributes, rules, i) is None <==> forall|k: int|
            i <= k < rules.len() ==> rule_violation(attributes, #[trigger] rules[k]) is None,
        first_violation(attributes, rules, i) matches Some(v) ==> i <= v.0 < rules.len()
            && rule_violation(attributes, rules[v.0]) == Some(v.1),
    decreases rules.len() - i,
{
    if i < rules.len() {
        lemma_no_violation(attributes, rules, i + 1);
    }
}

impl AttrRule {
    /// A mandatory, single-valued text attribute.
    pub fn need_one(key: &'static str) -> (r: AttrRule)
        ensures
            r@ == need_one(key@),
    {
        AttrRule { key, mandatory: true, multiple: false, kind: ValueKind::Text }
    }

    /// A mandatory, multi-valued text attribute.
    pub fn need_many(key: &'static str) -> (r: AttrRule)
        ensures
            r@ == need_many(key@),
    {
        AttrRule { key, mandatory: true, multiple: true, kind: ValueKind::Text }
    }

    /// An optional, single-valued text attribute.
    pub fn one(key: &'static str) -> (r: AttrRule)
        ensures
            r@ == one(key@),
    {
        AttrRule { key, mandatory: false, multiple: false, kind: ValueKind::Text }
    }

    /// An optional, multi-valued text attribute.
    pub fn many(key: &'static str) -> (r: AttrRule)
        ensures
            r@ == many(key@),
    {
        AttrRule { key, mandatory: false, multiple: true, kind: ValueKind::Text }
    }

    /// An optional, single-valued time stamp.
    pub fn moment(key: &'static str) -> (r: AttrRule)
        ensures
            r@ == moment(key@),
    {
        AttrRule { key, mandatory: false, multiple: false, kind: ValueKind::Timestamp }
    }
}

/// The schema of a range class whose class key is `key`.
fn range_rules(key: &'static str) -> (rules: Vec<AttrRule>)
    ensures
        rule_views(rules@) == range_schema(key@),
{
    let rules = vec![
        AttrRule::need_one(key),
        AttrRule::one("netname"),
        AttrRule::many("descr"),
        AttrRule::many("country"),
        AttrRule::many("language"),
        AttrRule::one("org"),
        AttrRule::many("admin-c"),
        AttrRule::many("tech-c"),
        AttrRule::one("status"),
        AttrRule::many("mnt-by"),
        AttrRule::one("source"),
        AttrRule::many("remarks"),
        AttrRule::moment("created"),
        AttrRule::moment("last-modified"),
    ];
    assert(rule_views(rules@) =~= range_schema(key@));
    rules
}

/// The schema of the class `mntner`.
fn mntner_rules() -> (rules: Vec<AttrRule>)
    ensures
        rule_views(rules@) == mntner_schema(),
{
    let rules = vec![
        AttrRule::need_one("mntner"),
        AttrRule::need_one("descr"),
        AttrRule::need_many("auth"),
        AttrRule::need_many("upd-to"),
        AttrRule::many("mnt-nfy"),
        AttrRule::need_many("tech-c"),
        AttrRule::many("admin-c"),
        AttrRule::many("remarks"),
        AttrRule::many("notify"),
        AttrRule::need_many("mnt-by"),
        AttrRule::need_many("changed"),
        AttrRule::need_one("source"),
    ];
    assert(rule_views(rules@) =~= mntner_schema());
    rules
}

/// The schema of the class `person`.
fn person_rules() -> (rules: Vec<AttrRule>)
    ensures
        rule_views(rules@) == person_schema(),
{
    let rules = vec![
        AttrRule::need_one("person"),
        AttrRule::need_one("nic-hdl"),
        AttrRule::need_many("address"),
        AttrRule::need_many("phone"),
        AttrRule::many("fax-no"),
        AttrRule::need_many("e-mail"),
    ];
    assert(rule_views(rules@) =~= person_schema());
    rules
}

/// The schema of the class `role`.
fn role_rules() -> (rules: Vec<AttrRule>)
    ensures
        rule_views(rules@) == role_schema(),
{
    let rules = vec![
        AttrRule::need_one("role"),
        AttrRule::need_one("nic-hdl"),
        AttrRule::many("trouble"),
        AttrRule::need_many("address"),
        AttrRule::need_many("phone"),
        AttrRule::many("fax-no"),
        AttrRule::need_many("e-mail"),
    ];
    assert(rule_views(rules@) =~= role_schema());
    rules
}

/// The schema of the class `route`.
fn route_rules() -> (rules: Vec<AttrRule>)
    ensures
        rule_views(rules@) == route_schema(),
{
    let rules = vec![
        AttrRule::need_one("route"),
        AttrRule::need_one("origin"),
        AttrRule::many("member-of"),
        AttrRule::many("inject"),
        AttrRule::one("components"),
        AttrRule::one("aggr-bndry"),
        AttrRule::one("aggr-mtd"),
        AttrRule::one("export-comps"),
        AttrRule::many("holes"),
    ];
    assert(rule_views(rules@) =~= route_schema());
    rules
}

/// The schema of a class.
pub fn schema(class: ObjectClass) -> (rules: Vec<AttrRule>)
    ensures
        rule_views(rules@) == schema_of(class),
{
    match class {
        ObjectClass::Inetnum => range_rules("inetnum"),
        ObjectClass::Inet6num => range_rules("inet6num"),
        ObjectClass::Mntner => mntner_rules(),
        ObjectClass::Person => person_rules(),
        ObjectClass::Role => role_rules(),
        ObjectClass::Route => route_rules(),
        ObjectClass::Unknown => {
            let rules: Vec<AttrRule> = Vec::new();
            assert(rule_views(rules@) =~= schema_of(class));
            rules
        },
    }
}

/// Tells whether every value is a time stamp.
pub fn values_are_timestamps(values: &Vec<Vec<u8>>) -> (r: bool)
    ensures
        r == all_timestamps(views(values@)),
{
    let mut i: usize = 0;
    while i < values.len()
        invariant
            i <= values@.len(),
            forall|k: int| 0 <= k < i ==> (#[trigger] timestamp(views(values@)[k])) is Some,
        decreases values@.len() - i,
    {
        let t = parse_timestamp(values[i].as_slice());
        assert(views(values@)[i as int] == values@[i as int]@);
        if t.is_none() {
            return false;
        }
        i += 1;
    }
    true
}

/// Tells how a block breaks one rule, if it does.
pub fn check_rule(entry: &RawEntry, rule: &AttrRule) -> (r: Option<ParseReason>)
    ensures
        r == rule_violation(entry@.attributes, rule@),
{
    let values = entry.values(rule.key);
    if rule.mandatory && values.len() == 0 {
        return Some(ParseReason::MissingAttribute);
    }
    if !rule.multiple && values.len() > 1 {
        return Some(ParseReason::RepeatedAttribute);
    }
    let is_moment = match rule.kind {
        ValueKind::Timestamp => true,
        ValueKind::Text => false,
    };
    if rule.mandatory && is_moment && !values_are_timestamps(&values) {
        return Some(ParseReason::MalformedDate);
    }
    None
}

/// Finds the first rule that a block breaks, by its index in `rules`, with
/// the reason.
pub fn check_schema(entry: &RawEntry, rules: &Vec<AttrRule>) -> (r: Option<(usize, ParseReason)>)
    ensures
        match r {
            Some((i, reason)) => first_violation(entry@.attributes, rule_views(rules@), 0) == Some(
                (i as int, reason),
            ),
            None => first_violation(entry@.attributes, rule_views(rules@), 0) is None,
        },
{
    let mut i: usize = 0;
    while i < rules.len()
        invariant
            i <= rules@.len(),
            first_violation(entry@.attributes, rule_views(rules@), 0) == first_violation(
                entry@.attributes,
                rule_views(rules@),
                i as int,
            ),
        decreases rules@.len() - i,
    {
        assert(rule_views(rules@)[i as int] == rules@[i as int]@);
        match check_rule(entry, &rules[i]) {
            Some(reason) => {
                return Some((i, reason));
            },
            None => {},
        }
        i += 1;
    }
    None
}

} // verus!
